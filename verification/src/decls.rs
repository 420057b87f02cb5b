//! Definition bodies: typed declarations inside interface, contract and implementation
//! definitions (`<param>`, `<returns>`, `<reads>`, `<writes>`, `<field>`, `<node>`,
//! `<skill ref>` and `<tool allow/deny>`).
use vstd::prelude::*;

use crate::ast::{
    FieldDecl, IoDecl, Node, NodeDecl, NodeType, ParamDecl, ReturnDecl, SkillRef, Span, SpecIoDecl,
    SpecFieldDecl, SpecNode, SpecNodeDecl, SpecParamDecl, SpecReturnDecl, SpecSkillRef, SpecToolConstraint, Str,
    ToolConstraint, spec_node_type_of,
};
use crate::attrs::{attr_get, attrs_view};
use crate::kinds::bool_of;
use crate::grammar::{
    glue_items, impl_ref_of, item_children, item_constraints, item_fields, item_node_decls,
    item_params, item_reads, item_refs, item_returns, item_writes, items_scan, lemma_items_push,
    lemma_items_empty, lemma_scan_advance, lemma_scan_end, lemma_scan_fail, lemma_scan_start, scan_error, scan_error_span, step,
    step_error, step_error_span, text_item, BodyItem, Ctx,
};
use crate::parser::{merge_texts, open_tag_error, open_tag_error_span, open_tag_reading, span_is, upto_50};
use crate::attrs::{attributes_of, AttrOutcome};
use crate::scan::{
    body_decls, close_scan, close_tag_at, decl_text, decode, first_decl_close, first_decl_open,
    first_match, next_boundary, self_closing, starts_at, tag_end, Body,
};
use crate::text::{list_items, trim};
use crate::attrs::{get_attr, has_attr, parse_attributes};
use crate::kinds::parse_bool;
use crate::parser::{
    decoded_text, error, find_matching_close, lemma_plain_names, lemma_self_closing_past_name,
    merge_text_nodes, parse_directive_tag, parse_skill_tag, raw_text, read_open_tag, region_ok,
    texts_merged, ParseError,
};
use crate::scan::{
    decode_entities, detect_close_tag, detect_contract_close_tag, detect_contract_decl_tag,
    detect_impl_close_tag, detect_impl_decl_tag, detect_interface_close_tag,
    detect_interface_decl_tag, detect_open_tag, find_from, find_next_contract_tag,
    find_next_impl_tag, find_next_interface_tag, find_tag_end, lit, opens_named, open_tag_at,
    opens_tag, starts_with_at, DeclTag, TagName,
};
use crate::source::span_of;
use crate::text::{join3, list_items_of, string_of, trim_bounds};

verus! {

/// Parsed result of an interface definition body.
pub struct ParsedInterfaceBody {
    pub params: Vec<ParamDecl>,
    pub return_decls: Vec<ReturnDecl>,
    pub reads: Option<IoDecl>,
    pub writes: Option<IoDecl>,
    pub skill_refs: Vec<SkillRef>,
    pub tool_constraints: Vec<ToolConstraint>,
    pub children: Vec<Node>,
}

/// Parsed contract body result.
pub struct ParsedContractBody {
    pub fields: Vec<FieldDecl>,
    pub children: Vec<Node>,
}

/// Parsed implementation body result.
pub struct ParsedImplementationBody {
    pub nodes: Vec<NodeDecl>,
    pub skill_refs: Vec<SkillRef>,
    pub children: Vec<Node>,
}

/// The parts of an interface body are those its items hold.
pub open spec fn interface_body_is(b: ParsedInterfaceBody, items: Seq<BodyItem>) -> bool {
    &&& b.params.deep_view() == item_params(items)
    &&& b.return_decls.deep_view() == item_returns(items)
    &&& crate::ast::opt_io_view(b.reads) == item_reads(items)
    &&& crate::ast::opt_io_view(b.writes) == item_writes(items)
    &&& b.skill_refs.deep_view() == item_refs(items)
    &&& b.tool_constraints.deep_view() == item_constraints(items)
    &&& Node::models(b.children@) == merge_texts(item_children(items))
}

/// The parts of a contract body are those its items hold.
pub open spec fn contract_body_is(b: ParsedContractBody, items: Seq<BodyItem>) -> bool {
    &&& FieldDecl::models(b.fields@) == item_fields(items)
    &&& Node::models(b.children@) == merge_texts(item_children(items))
}

/// The parts of an implementation body are those its items hold.
pub open spec fn implementation_body_is(b: ParsedImplementationBody, items: Seq<BodyItem>) -> bool {
    &&& b.nodes.deep_view() == item_node_decls(items)
    &&& b.skill_refs.deep_view() == item_refs(items)
    &&& Node::models(b.children@) == merge_texts(item_children(items))
}

/// A description: the text decoded and trimmed, `None` when that leaves nothing.
pub open spec fn description_of(s: Seq<char>, a: int, b: int) -> Option<Str> {
    if trim(decode(s.subrange(a, b))).len() == 0 {
        None
    } else {
        Some(trim(decode(s.subrange(a, b))))
    }
}

/// The `required` attribute: absent, `true` or `false`; `None` for any other value.
pub open spec fn required_of(a: Seq<(Str, Str)>) -> Option<Option<bool>> {
    match attr_get(a, "required"@) {
        Some(v) => match bool_of(v) {
            Some(b) => Some(Some(b)),
            None => None,
        },
        None => Some(None),
    }
}

/// The span from index `a` to index `b` of the text, in bytes.
pub open spec fn span_between(offs: Seq<usize>, a: int, b: int) -> Span {
    Span { start: offs[a], end: offs[b] }
}

/// Where a declaration opened by the tag that ends at `e` ends, and its description: just
/// past `e` when the tag closes itself, else just past the first `close` after it.
pub open spec fn decl_extent(s: Seq<char>, e: int, sc: bool, hi: int, close: Seq<char>) -> Option<(Option<Str>, int)> {
    if sc {
        Some((None, e + 1))
    } else {
        match first_match(s, e + 1, hi, close) {
            Some(ce) => Some((description_of(s, e + 1, ce), ce + close.len())),
            None => None,
        }
    }
}

/// The `<param>` declaration at `lo` and the index just past it, when it parses.
pub open spec fn param_decl_of(s: Seq<char>, offs: Seq<usize>, lo: int, hi: int) -> Option<(SpecParamDecl, int)> {
    match open_tag_reading(s, lo, hi, "param"@) {
        Some((e, sc, a)) => match (attr_get(a, "name"@), required_of(a), decl_extent(s, e, sc, hi, "</param>"@)) {
            (Some(n), Some(req), Some((d, end))) => Some(
                (
                    SpecParamDecl {
                        name: n,
                        param_type: attr_get(a, "type"@),
                        required: req,
                        default: attr_get(a, "default"@),
                        values: attr_get(a, "values"@),
                        description: d,
                        span: span_between(offs, lo, end),
                    },
                    end,
                ),
            ),
            _ => None,
        },
        None => None,
    }
}

/// The `<returns>` declaration at `lo` and the index just past it, when it parses.
pub open spec fn returns_decl_of(s: Seq<char>, offs: Seq<usize>, lo: int, hi: int) -> Option<(SpecReturnDecl, int)> {
    match open_tag_reading(s, lo, hi, "returns"@) {
        Some((e, sc, a)) => match (attr_get(a, "name"@), decl_extent(s, e, sc, hi, "</returns>"@)) {
            (Some(n), Some((d, end))) => Some(
                (
                    SpecReturnDecl {
                        name: n,
                        return_type: attr_get(a, "type"@),
                        values: attr_get(a, "values"@),
                        description: d,
                        span: span_between(offs, lo, end),
                    },
                    end,
                ),
            ),
            _ => None,
        },
        None => None,
    }
}

/// The `<reads>` or `<writes>` declaration at `lo` and the index just past it, when it
/// parses: patterns from the `patterns` attribute of a self-closing tag, else from the body.
pub open spec fn io_decl_of(tag: Seq<char>, s: Seq<char>, offs: Seq<usize>, lo: int, hi: int) -> Option<(SpecIoDecl, int)> {
    match open_tag_reading(s, lo, hi, tag) {
        Some((e, sc, a)) => if sc {
            Some(
                (
                    SpecIoDecl {
                        patterns: list_items(
                            match attr_get(a, "patterns"@) {
                                Some(p) => p,
                                None => Seq::empty(),
                            },
                        ),
                        span: span_between(offs, lo, e + 1),
                    },
                    e + 1,
                ),
            )
        } else {
            match first_match(s, e + 1, hi, "</"@ + tag + ">"@) {
                Some(ce) => Some(
                    (
                        SpecIoDecl {
                            patterns: list_items(s.subrange(e + 1, ce)),
                            span: span_between(offs, lo, ce + tag.len() + 3),
                        },
                        ce + tag.len() + 3,
                    ),
                ),
                None => None,
            }
        },
        None => None,
    }
}

/// A skill reference must not also carry `interface`, `impl`, `define` or `name`.
pub open spec fn ref_conflict(a: Seq<(Str, Str)>) -> bool {
    ||| attr_get(a, "interface"@) is Some
    ||| attr_get(a, "impl"@) is Some
    ||| attr_get(a, "define"@) is Some
    ||| attr_get(a, "name"@) is Some
}

/// The `<skill ref="...">` at `lo` read with the close tag at `close_at` (for a wrapping
/// form): `Some(None)` for a skill tag without `ref`, `Some(Some((reference, end)))` for a
/// reference, `None` when it does not parse.
pub open spec fn skill_ref_with(s: Seq<char>, offs: Seq<usize>, lo: int, hi: int, close_at: spec_fn(int) -> Option<int>) -> Option<Option<(SpecSkillRef, int)>> {
    match open_tag_reading(s, lo, hi, "skill"@) {
        Some((e, sc, a)) => match attr_get(a, "ref"@) {
            None => Some(None),
            Some(n) => if ref_conflict(a) {
                None
            } else {
                let end = if sc {
                    Some(e + 1)
                } else {
                    match close_at(e + 1) {
                        Some(ce) => Some(ce + 8),
                        None => None,
                    }
                };
                match end {
                    Some(end) => Some(
                        Some((SpecSkillRef { ref_name: n, role: attr_get(a, "role"@), span: span_between(offs, lo, end) }, end)),
                    ),
                    None => None,
                }
            },
        },
        None => None,
    }
}

/// A skill reference inside an interface body: a wrapping form ends at the first
/// `</skill>`.
pub open spec fn skill_ref_of(s: Seq<char>, offs: Seq<usize>, lo: int, hi: int) -> Option<Option<(SpecSkillRef, int)>> {
    skill_ref_with(s, offs, lo, hi, |i: int| first_match(s, i, hi, "</skill>"@))
}

/// The self-closing `<tool allow="..."/>` or `<tool deny="..."/>` constraint at `lo`:
/// `Some(None)` for a tool tag that is no constraint (not self-closing, neither list, or a
/// `name` or `use` attribute), `None` when it does not parse.
pub open spec fn tool_constraint_of(s: Seq<char>, offs: Seq<usize>, lo: int, hi: int) -> Option<Option<(SpecToolConstraint, int)>> {
    match tag_end(s, lo, hi) {
        None => None,
        Some(e) => if !self_closing(s, e) {
            Some(None)
        } else {
            match attributes_of(s.subrange(lo + 5, e - 1)) {
                AttrOutcome::Parsed(a) => if (attr_get(a, "allow"@) is None && attr_get(a, "deny"@) is None)
                    || attr_get(a, "name"@) is Some || attr_get(a, "use"@) is Some {
                    Some(None)
                } else {
                    Some(
                        Some(
                            (
                                SpecToolConstraint {
                                    allow: match attr_get(a, "allow"@) {
                                        Some(v) => list_items(v),
                                        None => Seq::empty(),
                                    },
                                    deny: match attr_get(a, "deny"@) {
                                        Some(v) => list_items(v),
                                        None => Seq::empty(),
                                    },
                                    span: span_between(offs, lo, e + 1),
                                },
                                e + 1,
                            ),
                        ),
                    )
                },
                _ => None,
            }
        },
    }
}

/// The message of a `required` attribute that is neither `true` nor `false`.
#[verifier::opaque]
pub open spec fn required_error(a: Seq<(Str, Str)>) -> Str {
    "invalid required value: '"@ + attr_get(a, "required"@).unwrap() + "' (expected 'true' or 'false')"@
}

/// The message of a `<param>` declaration at `lo` that does not parse.
#[verifier::opaque]
pub open spec fn param_decl_error(s: Seq<char>, lo: int, hi: int) -> Str {
    match open_tag_reading(s, lo, hi, "param"@) {
        None => open_tag_error(s, lo, hi, "param"@, "unclosed <param> declaration tag"@),
        Some((_, _, a)) => if attr_get(a, "name"@) is None {
            "<param> declaration missing 'name' attribute"@
        } else if required_of(a) is None {
            required_error(a)
        } else {
            "unclosed <param> declaration tag"@
        },
    }
}

/// The message of a `<returns>` declaration at `lo` that does not parse.
#[verifier::opaque]
pub open spec fn returns_decl_error(s: Seq<char>, lo: int, hi: int) -> Str {
    match open_tag_reading(s, lo, hi, "returns"@) {
        None => open_tag_error(s, lo, hi, "returns"@, "unclosed <returns> declaration tag"@),
        Some((_, _, a)) => if attr_get(a, "name"@) is None {
            "<returns> declaration missing 'name' attribute"@
        } else {
            "unclosed <returns> declaration tag"@
        },
    }
}

/// The message of a `<reads>` or `<writes>` declaration at `lo` that does not parse.
#[verifier::opaque]
pub open spec fn io_decl_error(tag: Seq<char>, s: Seq<char>, lo: int, hi: int) -> Str {
    match open_tag_reading(s, lo, hi, tag) {
        None => open_tag_error(s, lo, hi, tag, "unclosed I/O declaration tag"@),
        Some(_) => "unclosed <"@ + tag + "> declaration tag"@,
    }
}

/// The first of `interface`, `impl`, `define` and `name` that a reference carries.
pub open spec fn first_conflict(a: Seq<(Str, Str)>) -> Str {
    if attr_get(a, "interface"@) is Some {
        "interface"@
    } else if attr_get(a, "impl"@) is Some {
        "impl"@
    } else if attr_get(a, "define"@) is Some {
        "define"@
    } else {
        "name"@
    }
}

/// The message of a reference that carries a conflicting attribute.
#[verifier::opaque]
pub open spec fn ref_conflict_error(a: Seq<(Str, Str)>) -> Str {
    "<skill ref=\""@ + attr_get(a, "ref"@).unwrap() + "\"> must not have '"@ + first_conflict(a) + "' attribute"@
}

/// The message of a skill reference at `lo` inside an interface body that does not parse.
#[verifier::opaque]
pub open spec fn skill_ref_error(s: Seq<char>, lo: int, hi: int) -> Str {
    match open_tag_reading(s, lo, hi, "skill"@) {
        None => open_tag_error(s, lo, hi, "skill"@, "unclosed <skill> tag"@),
        Some((_, _, a)) => if ref_conflict(a) {
            ref_conflict_error(a)
        } else {
            "unclosed <skill ref> tag"@
        },
    }
}

/// The message of a `<tool .../>` constraint at `lo` that does not parse.
#[verifier::opaque]
pub open spec fn tool_constraint_error(s: Seq<char>, lo: int, hi: int) -> Str {
    match tag_end(s, lo, hi) {
        None => "unclosed <tool> tag"@,
        Some(e) => crate::attrs::attr_error(attributes_of(s.subrange(lo + 5, e - 1))),
    }
}

/// The message of a `<node>` declaration at `lo` that does not parse.
#[verifier::opaque]
pub open spec fn node_decl_error(s: Seq<char>, lo: int, hi: int) -> Str {
    match open_tag_reading(s, lo, hi, "node"@) {
        None => open_tag_error(s, lo, hi, "node"@, "unclosed <node> declaration tag"@),
        Some((_, _, a)) => if attr_get(a, "name"@) is None {
            "<node> declaration missing 'name' attribute"@
        } else if attr_get(a, "type"@) is None {
            "<node> declaration missing 'type' attribute"@
        } else if spec_node_type_of(attr_get(a, "type"@).unwrap()) is None {
            "invalid node type '"@ + attr_get(a, "type"@).unwrap() + "' (expected 'tool' or 'prompt')"@
        } else {
            "unclosed <node> declaration tag"@
        },
    }
}

/// The message of a `<field>` declaration at `lo` that does not parse.
pub open spec fn field_decl_error(s: Seq<char>, offs: Seq<usize>, lo: int, hi: int) -> Str
    decreases hi - lo, 1nat,
{
    match open_tag_reading(s, lo, hi, "field"@) {
        None => open_tag_error(s, lo, hi, "field"@, "unclosed <field> declaration tag"@),
        Some((e, sc, a)) => if attr_get(a, "name"@) is None {
            "<field> declaration missing 'name' attribute"@
        } else if required_of(a) is None {
            required_error(a)
        } else if sc {
            Seq::empty()
        } else {
            match close_scan(s, e + 1, hi, "field"@, 1) {
                None => "unclosed <"@ + "field"@ + "> tag \u{2014} no matching </"@ + "field"@ + ">"@,
                Some(ce) => if lo < e && e + 1 <= ce && ce + 8 <= hi {
                    field_body_error(s, offs, e + 1, ce)
                } else {
                    Seq::empty()
                },
            }
        },
    }
}

/// The message of a field body from `pos` to `ce` that does not parse: that of its first
/// nested field that does not.
pub open spec fn field_body_error(s: Seq<char>, offs: Seq<usize>, pos: int, ce: int) -> Str
    decreases ce - pos + 1, 0nat,
{
    if pos >= ce || pos < 0 {
        Seq::empty()
    } else if starts_at(s, pos, ce, "<!--"@) {
        match first_match(s, pos, ce, "-->"@) {
            Some(x) => if pos <= x && x + 3 <= ce {
                field_body_error(s, offs, x + 3, ce)
            } else {
                Seq::empty()
            },
            None => Seq::empty(),
        }
    } else if first_decl_open(s, pos, ce, body_decls(Body::Contract)) is Some {
        match field_decl_of(s, offs, pos, ce) {
            Some((_, end)) => if pos < end <= ce {
                field_body_error(s, offs, end, ce)
            } else {
                Seq::empty()
            },
            None => field_decl_error(s, offs, pos, ce),
        }
    } else if first_decl_close(s, pos, ce, body_decls(Body::Contract)) is Some {
        match first_match(s, pos, ce, ">"@) {
            Some(x) => if pos <= x && x + 1 <= ce {
                field_body_error(s, offs, x + 1, ce)
            } else {
                Seq::empty()
            },
            None => field_body_error(s, offs, pos + 1, ce),
        }
    } else if close_tag_at(s, pos, ce) is Some || crate::scan::open_tag_at(s, pos, ce) is Some {
        match first_match(s, pos, ce, ">"@) {
            Some(x) => if pos <= x && x + 1 <= ce {
                field_body_error(s, offs, x + 1, ce)
            } else {
                Seq::empty()
            },
            None => Seq::empty(),
        }
    } else {
        let te = match next_boundary(s, pos, ce, Body::Contract) {
            Some(i) => i,
            None => ce,
        };
        let stop = if pos < te <= ce {
            te
        } else {
            pos + 1
        };
        field_body_error(s, offs, stop, ce)
    }
}

/// The span of a `<param>`, `<returns>`, `<reads>`, `<writes>` or `<node>` declaration, or
/// of a skill reference, at `lo` that does not parse, where it is stated: that of an
/// unclosed opening tag, else that of the opening tag.
pub open spec fn decl_error_span(s: Seq<char>, offs: Seq<usize>, lo: int, hi: int, name: Seq<char>) -> Option<(int, int)> {
    match open_tag_reading(s, lo, hi, name) {
        None => open_tag_error_span(s, offs, lo, hi),
        Some((e, _, _)) => Some((offs[lo] as int, offs[e + 1] as int)),
    }
}

/// The span of a `<tool .../>` constraint at `lo` that does not parse, where it is stated:
/// that of an unclosed tag.
pub open spec fn tool_constraint_error_span(s: Seq<char>, offs: Seq<usize>, lo: int, hi: int) -> Option<(int, int)> {
    match tag_end(s, lo, hi) {
        None => Some(upto_50(offs, lo, hi)),
        Some(_) => None,
    }
}

/// The span of a `<field>` declaration at `lo` that does not parse, where it is stated.
pub open spec fn field_decl_error_span(s: Seq<char>, offs: Seq<usize>, lo: int, hi: int) -> Option<(int, int)>
    decreases hi - lo, 1nat,
{
    match open_tag_reading(s, lo, hi, "field"@) {
        None => open_tag_error_span(s, offs, lo, hi),
        Some((e, sc, a)) => if attr_get(a, "name"@) is None || required_of(a) is None {
            Some((offs[lo] as int, offs[e + 1] as int))
        } else if sc {
            None
        } else {
            match close_scan(s, e + 1, hi, "field"@, 1) {
                None => Some(upto_50(offs, e + 1, hi)),
                Some(ce) => if lo < e && e + 1 <= ce && ce + 8 <= hi {
                    field_body_error_span(s, offs, e + 1, ce)
                } else {
                    None
                },
            }
        },
    }
}

/// The span of a field body from `pos` to `ce` that does not parse, where it is stated.
pub open spec fn field_body_error_span(s: Seq<char>, offs: Seq<usize>, pos: int, ce: int) -> Option<(int, int)>
    decreases ce - pos + 1, 0nat,
{
    if pos >= ce || pos < 0 {
        None
    } else if starts_at(s, pos, ce, "<!--"@) {
        match first_match(s, pos, ce, "-->"@) {
            Some(x) => if pos <= x && x + 3 <= ce {
                field_body_error_span(s, offs, x + 3, ce)
            } else {
                None
            },
            None => None,
        }
    } else if first_decl_open(s, pos, ce, body_decls(Body::Contract)) is Some {
        match field_decl_of(s, offs, pos, ce) {
            Some((_, end)) => if pos < end <= ce {
                field_body_error_span(s, offs, end, ce)
            } else {
                None
            },
            None => field_decl_error_span(s, offs, pos, ce),
        }
    } else if first_decl_close(s, pos, ce, body_decls(Body::Contract)) is Some {
        match first_match(s, pos, ce, ">"@) {
            Some(x) => if pos <= x && x + 1 <= ce {
                field_body_error_span(s, offs, x + 1, ce)
            } else {
                None
            },
            None => field_body_error_span(s, offs, pos + 1, ce),
        }
    } else if close_tag_at(s, pos, ce) is Some || crate::scan::open_tag_at(s, pos, ce) is Some {
        match first_match(s, pos, ce, ">"@) {
            Some(x) => if pos <= x && x + 1 <= ce {
                field_body_error_span(s, offs, x + 1, ce)
            } else {
                None
            },
            None => None,
        }
    } else {
        let te = match next_boundary(s, pos, ce, Body::Contract) {
            Some(i) => i,
            None => ce,
        };
        let stop = if pos < te <= ce {
            te
        } else {
            pos + 1
        };
        field_body_error_span(s, offs, stop, ce)
    }
}

/// A node body read from `pos`: the `use` of the last self-closing `<tool .../>` that has
/// one, and the text outside such tags.
pub open spec fn node_body_scan(s: Seq<char>, pos: int, hi: int) -> (Option<Str>, Seq<char>)
    decreases hi - pos,
{
    if pos >= hi {
        (None, Seq::empty())
    } else if opens_tag(s, pos, hi, "tool"@) && tag_end(s, pos, hi) is Some && pos < tag_end(s, pos, hi).unwrap() < hi
        && self_closing(s, tag_end(s, pos, hi).unwrap()) {
        let e = tag_end(s, pos, hi).unwrap();
        let rest = node_body_scan(s, e + 1, hi);
        let here = match attributes_of(s.subrange(pos + 5, e - 1)) {
            AttrOutcome::Parsed(a) => attr_get(a, "use"@),
            _ => None,
        };
        (if rest.0 is Some { rest.0 } else { here }, rest.1)
    } else {
        let next = match first_match(s, pos, hi, "<"@) {
            Some(i) => i,
            None => hi,
        };
        let stop = if pos < next <= hi { next } else { pos + 1 };
        let rest = node_body_scan(s, stop, hi);
        (rest.0, s.subrange(pos, stop) + rest.1)
    }
}

/// The tool use and the description of the node body `s[lo..hi]`: the text is trimmed,
/// then its entities decoded; `None` when nothing is left.
pub open spec fn node_body_of(s: Seq<char>, lo: int, hi: int) -> (Option<Str>, Option<Str>) {
    let (u, t) = node_body_scan(s, lo, hi);
    (u, if trim(t).len() == 0 { None } else { Some(decode(trim(t))) })
}

/// The `<node>` declaration at `lo` and the index just past it, when it parses.
pub open spec fn node_decl_of(s: Seq<char>, offs: Seq<usize>, lo: int, hi: int) -> Option<(SpecNodeDecl, int)> {
    match open_tag_reading(s, lo, hi, "node"@) {
        Some((e, sc, a)) => match (attr_get(a, "name"@), attr_get(a, "type"@)) {
            (Some(n), Some(t)) => match spec_node_type_of(t) {
                Some(nt) => if sc {
                    Some((SpecNodeDecl { name: n, node_type: nt, tool_use: None, description: None, span: span_between(offs, lo, e + 1) }, e + 1))
                } else {
                    match first_match(s, e + 1, hi, "</node>"@) {
                        Some(ce) => Some(
                            (
                                SpecNodeDecl {
                                    name: n,
                                    node_type: nt,
                                    tool_use: node_body_of(s, e + 1, ce).0,
                                    description: node_body_of(s, e + 1, ce).1,
                                    span: span_between(offs, lo, ce + 7),
                                },
                                ce + 7,
                            ),
                        ),
                        None => None,
                    }
                },
                None => None,
            },
            _ => None,
        },
        None => None,
    }
}

/// `r` with `c` and `t` put in front of its declarations and its text.
pub open spec fn glue<D>(c: Seq<D>, t: Seq<char>, r: Option<(Seq<D>, Seq<char>)>) -> Option<(Seq<D>, Seq<char>)> {
    match r {
        Some((c2, t2)) => Some((c + c2, t + t2)),
        None => None,
    }
}

/// The `<field>` declaration at `lo` and the index just past it, when it parses: a
/// wrapping field holds nested fields and a description (its other text, decoded and
/// trimmed).
pub open spec fn field_decl_of(s: Seq<char>, offs: Seq<usize>, lo: int, hi: int) -> Option<(SpecFieldDecl, int)>
    decreases hi - lo, 1nat,
{
    match open_tag_reading(s, lo, hi, "field"@) {
        Some((e, sc, a)) => match (attr_get(a, "name"@), required_of(a)) {
            (Some(n), Some(req)) => {
                let required = match req {
                    Some(b) => b,
                    None => false,
                };
                if sc {
                    Some(
                        (
                            SpecFieldDecl {
                                name: n,
                                field_type: attr_get(a, "type"@),
                                required,
                                default: attr_get(a, "default"@),
                                values: attr_get(a, "values"@),
                                children: Seq::empty(),
                                description: None,
                                span: span_between(offs, lo, e + 1),
                            },
                            e + 1,
                        ),
                    )
                } else {
                    match close_scan(s, e + 1, hi, "field"@, 1) {
                        Some(ce) => if lo < e && e + 1 <= ce && ce + 8 <= hi {
                            match field_body_scan(s, offs, e + 1, ce) {
                                Some((cs, t)) => Some(
                                    (
                                        SpecFieldDecl {
                                            name: n,
                                            field_type: attr_get(a, "type"@),
                                            required,
                                            default: attr_get(a, "default"@),
                                            values: attr_get(a, "values"@),
                                            children: cs,
                                            description: description_of(t, 0, t.len() as int),
                                            span: span_between(offs, lo, ce + 8),
                                        },
                                        ce + 8,
                                    ),
                                ),
                                None => None,
                            }
                        } else {
                            None
                        },
                        None => None,
                    }
                }
            },
            _ => None,
        },
        None => None,
    }
}

/// The body of a field from `pos` to its close tag at `ce`: the nested fields and the
/// description text (comments and the close tags of declarations left out, other tags
/// kept as text).
pub open spec fn field_body_scan(s: Seq<char>, offs: Seq<usize>, pos: int, ce: int) -> Option<(Seq<SpecFieldDecl>, Seq<char>)>
    decreases ce - pos + 1, 0nat,
{
    if pos >= ce || pos < 0 {
        Some((Seq::empty(), Seq::empty()))
    } else if starts_at(s, pos, ce, "<!--"@) {
        match first_match(s, pos, ce, "-->"@) {
            Some(x) => if pos <= x && x + 3 <= ce {
                field_body_scan(s, offs, x + 3, ce)
            } else {
                None
            },
            None => Some((Seq::empty(), s.subrange(pos, ce))),
        }
    } else if first_decl_open(s, pos, ce, body_decls(Body::Contract)) is Some {
        match field_decl_of(s, offs, pos, ce) {
            Some((d, end)) => if pos < end <= ce {
                glue(seq![d], Seq::empty(), field_body_scan(s, offs, end, ce))
            } else {
                None
            },
            None => None,
        }
    } else if first_decl_close(s, pos, ce, body_decls(Body::Contract)) is Some {
        match first_match(s, pos, ce, ">"@) {
            Some(x) => if pos <= x && x + 1 <= ce {
                field_body_scan(s, offs, x + 1, ce)
            } else {
                None
            },
            None => field_body_scan(s, offs, pos + 1, ce),
        }
    } else if close_tag_at(s, pos, ce) is Some || crate::scan::open_tag_at(s, pos, ce) is Some {
        match first_match(s, pos, ce, ">"@) {
            Some(x) => if pos <= x && x + 1 <= ce {
                glue(Seq::empty(), s.subrange(pos, x + 1), field_body_scan(s, offs, x + 1, ce))
            } else {
                None
            },
            None => Some((Seq::empty(), s.subrange(pos, ce))),
        }
    } else {
        let te = match next_boundary(s, pos, ce, Body::Contract) {
            Some(i) => i,
            None => ce,
        };
        let stop = if pos < te <= ce {
            te
        } else {
            pos + 1
        };
        glue(Seq::empty(), s.subrange(pos, stop), field_body_scan(s, offs, stop, ce))
    }
}

/// The span `offs[lo]..offs[lo] + min(50, bytes to hi)` of an unclosed tag.
fn unclosed_span(offs: &[usize], lo: usize, hi: usize) -> (r: (usize, usize))
    requires
        lo <= hi < offs@.len(),
        offs@[lo as int] <= offs@[hi as int],
        offs@[hi as int] + 50 <= usize::MAX,
    ensures
        r.0 == offs@[lo as int],
        r.0 <= r.1 <= r.0 + 50,
        (r.0 as int, r.1 as int) == crate::parser::upto_50(offs@, lo as int, hi as int),
{
    let len = offs[hi] - offs[lo];
    let m = if len < 50 { len } else { 50 };
    (offs[lo], offs[lo] + m)
}

/// Read a `required` attribute value (`true` or `false`).
fn required_value(attrs: &Vec<(String, String)>, start: usize, end: usize) -> (r: Result<Option<bool>, ParseError>)
    ensures
        match r {
            Ok(x) => required_of(attrs_view(attrs@)) == Some(x),
            Err(e) => required_of(attrs_view(attrs@)) is None && e.message@ == required_error(attrs_view(attrs@))
                && e.span.start == start && e.span.end == end,
        },
{
    proof {
        reveal(required_error);
    }
    match get_attr(attrs, "required") {
        Some(v) => match parse_bool(v.as_str()) {
            Some(b) => Ok(Some(b)),
            None => Err(
                error(
                    join3("invalid required value: '", v.as_str(), "' (expected 'true' or 'false')"),
                    start,
                    end,
                ),
            ),
        },
        None => Ok(None),
    }
}

/// The parts of an interface body gathered so far are those the items hold (children not
/// yet merged).
pub open spec fn interface_parts_hold(b: ParsedInterfaceBody, items: Seq<BodyItem>) -> bool {
    &&& b.params.deep_view() == item_params(items)
    &&& b.return_decls.deep_view() == item_returns(items)
    &&& crate::ast::opt_io_view(b.reads) == item_reads(items)
    &&& crate::ast::opt_io_view(b.writes) == item_writes(items)
    &&& b.skill_refs.deep_view() == item_refs(items)
    &&& b.tool_constraints.deep_view() == item_constraints(items)
    &&& Node::models(b.children@) == item_children(items)
}

/// Parse the body of an interface definition, extracting typed declarations.
pub fn parse_interface_body(s: &[char], offs: &[usize], lo: usize, hi: usize) -> (r: Result<ParsedInterfaceBody, ParseError>)
    requires
        region_ok(s@, offs@, lo as int, hi as int),
    ensures
        match r {
            Ok(b) => (items_scan(Ctx::Interface, s@, offs@, lo as int, hi as int) matches Some(items)
                && interface_body_is(b, items)),
            Err(x) => items_scan(Ctx::Interface, s@, offs@, lo as int, hi as int) is None && span_is(x, scan_error_span(
                Ctx::Interface,
                s@,
                offs@,
                lo as int,
                hi as int,
            )) && x.message@ == scan_error(
                Ctx::Interface,
                s@,
                offs@,
                lo as int,
                hi as int,
            ),
        },
        r matches Ok(b) ==> texts_merged(Node::models(b.children@)),
    decreases hi - lo, 4nat,
{
    proof {
        lemma_scan_start(Ctx::Interface, s@, offs@, lo as int, hi as int);
        lemma_items_empty();
    }
    let mut parts = ParsedInterfaceBody {
        params: Vec::new(),
        return_decls: Vec::new(),
        reads: None,
        writes: None,
        skill_refs: Vec::new(),
        tool_constraints: Vec::new(),
        children: Vec::new(),
    };
    let ghost mut acc: Seq<BodyItem> = Seq::empty();
    assert(interface_parts_hold(parts, acc)) by {
        assert(parts.params.deep_view() =~= item_params(acc));
        assert(parts.return_decls.deep_view() =~= item_returns(acc));
        assert(parts.skill_refs.deep_view() =~= item_refs(acc));
        assert(parts.tool_constraints.deep_view() =~= item_constraints(acc));
        assert(Node::models(parts.children@) =~= item_children(acc));
    }
    let mut pos = lo;
    while pos < hi
        invariant
            region_ok(s@, offs@, lo as int, hi as int),
            lo <= pos <= hi,
            items_scan(Ctx::Interface, s@, offs@, lo as int, hi as int) == glue_items(
                acc,
                items_scan(Ctx::Interface, s@, offs@, pos as int, hi as int),
            ),
            scan_error(Ctx::Interface, s@, offs@, lo as int, hi as int) == scan_error(Ctx::Interface, s@, offs@, pos as int, hi as int),
            scan_error_span(Ctx::Interface, s@, offs@, lo as int, hi as int) == scan_error_span(Ctx::Interface, s@, offs@, pos as int, hi as int),
            interface_parts_hold(parts, acc),
        decreases hi - pos,
    {
        let ghost p0 = pos as int;
        match interface_step(s, offs, pos, hi, &mut parts, Ghost(acc)) {
            Ok((next, xs)) => {
                proof {
                    lemma_scan_advance(Ctx::Interface, s@, offs@, p0, hi as int, next as int, xs@, acc);
                    acc = acc + xs@;
                }
                pos = next;
            },
            Err(err) => {
                proof {
                    lemma_scan_fail(Ctx::Interface, s@, offs@, p0, hi as int);
                }
                return Err(err);
            },
        }
    }
    proof {
        lemma_scan_end(Ctx::Interface, s@, offs@, pos as int, hi as int, acc);
    }
    merge_text_nodes(&mut parts.children);
    Ok(parts)
}

/// One step of an interface body scan at `pos`: the parts gain the items the step
/// yields.
#[verifier::rlimit(100)]
#[verifier::spinoff_prover]
fn interface_step(
    s: &[char],
    offs: &[usize],
    pos: usize,
    hi: usize,
    parts: &mut ParsedInterfaceBody,
    Ghost(acc): Ghost<Seq<BodyItem>>,
) -> (r: Result<(usize, Ghost<Seq<BodyItem>>), ParseError>)
    requires
        region_ok(s@, offs@, pos as int, hi as int),
        pos < hi,
        interface_parts_hold(*old(parts), acc),
    ensures
        match r {
            Ok((next, xs)) => pos < next <= hi && step(Ctx::Interface, s@, offs@, pos as int, hi as int) == Some(
                (xs@, next as int),
            ) && interface_parts_hold(*final(parts), acc + xs@),
            Err(x) => step(Ctx::Interface, s@, offs@, pos as int, hi as int) is None && span_is(x, step_error_span(
                Ctx::Interface,
                s@,
                offs@,
                pos as int,
                hi as int,
            )) && x.message@ == step_error(
                Ctx::Interface,
                s@,
                offs@,
                pos as int,
                hi as int,
            ),
        },
    decreases hi - pos, 3nat,
{
    proof {
        reveal_strlit("<!--");
        reveal_strlit("-->");
        reveal_strlit(">");
        reveal_strlit("reads");
        reveal_strlit("writes");
        reveal_with_fuel(step, 2);
        assert(acc + Seq::<BodyItem>::empty() =~= acc);
    }
    let comment_open = lit("<!--");
    let comment_close = lit("-->");
    let gt = lit(">");
    let nothing: Ghost<Seq<BodyItem>> = Ghost(Seq::empty());
    proof {
        if !crate::scan::starts_at(s@, pos as int, hi as int, "<!--"@) {
            crate::grammar::lemma_step_error_of(Ctx::Interface, s@, offs@, pos as int, hi as int);
        }
    }
    if starts_with_at(s, pos, hi, &comment_open) {
        return match find_from(s, pos, hi, &comment_close) {
            Some(e) => Ok((e + 3, nothing)),
            None => add_interface_child(parts, raw_text(s, pos, hi), hi, Ghost(acc)),
        };
    }
    if let Some(decl) = detect_interface_decl_tag(s, pos, hi) {
        proof {
            crate::scan::lemma_first_decl_open(s@, pos as int, hi as int, crate::scan::body_decls(crate::scan::Body::Interface));
        }
        let ghost x: BodyItem;
        let end = match decl {
            DeclTag::Param => {
                let (d, end) = parse_param_decl(s, offs, pos, hi)?;
                proof {
                    x = BodyItem::Param(d@);
                    assert(parts.params.deep_view().push(d@) =~= old(parts).params.deep_view().push(d@));
                }
                parts.params.push(d);
                assert(parts.params.deep_view() =~= old(parts).params.deep_view().push(x->Param_0));
                end
            },
            DeclTag::Returns => {
                let (d, end) = parse_returns_decl(s, offs, pos, hi)?;
                proof {
                    x = BodyItem::Returns(d@);
                }
                parts.return_decls.push(d);
                assert(parts.return_decls.deep_view() =~= old(parts).return_decls.deep_view().push(x->Returns_0));
                end
            },
            DeclTag::Reads => {
                let (d, end) = parse_io_decl(DeclTag::Reads, s, offs, pos, hi)?;
                proof {
                    x = BodyItem::Reads(d@);
                }
                parts.reads = Some(d);
                end
            },
            _ => {
                assert(decl == DeclTag::Writes);
                let (d, end) = parse_io_decl(DeclTag::Writes, s, offs, pos, hi)?;
                proof {
                    x = BodyItem::Writes(d@);
                }
                parts.writes = Some(d);
                end
            },
        };
        proof {
            lemma_items_push(acc, x);
            assert(acc + seq![x] =~= acc.push(x));
        }
        let g: Ghost<Seq<BodyItem>> = Ghost(Seq::empty().push(x));
        return Ok((end, g));
    }
    if detect_interface_close_tag(s, pos, hi).is_some() {
        return match find_from(s, pos, hi, &gt) {
            Some(e) => Ok((e + 1, nothing)),
            None => Ok((pos + 1, nothing)),
        };
    }
    interface_tag_step(s, offs, pos, hi, parts, Ghost(acc))
}

/// A step of an interface body scan where no declaration tag starts.
fn interface_tag_step(
    s: &[char],
    offs: &[usize],
    pos: usize,
    hi: usize,
    parts: &mut ParsedInterfaceBody,
    Ghost(acc): Ghost<Seq<BodyItem>>,
) -> (r: Result<(usize, Ghost<Seq<BodyItem>>), ParseError>)
    requires
        region_ok(s@, offs@, pos as int, hi as int),
        pos < hi,
        interface_parts_hold(*old(parts), acc),
    ensures
        match r {
            Ok((next, xs)) => pos < next <= hi && crate::grammar::interface_tag_step_of(s@, offs@, pos as int, hi as int)
                == Some((xs@, next as int)) && interface_parts_hold(*final(parts), acc + xs@),
            Err(x) => crate::grammar::interface_tag_step_of(s@, offs@, pos as int, hi as int) is None && span_is(x, crate::grammar::interface_tag_step_error_span(s@, offs@, pos as int, hi as int)) && x.message@
                == crate::grammar::interface_tag_step_error(s@, offs@, pos as int, hi as int),
        },
    decreases hi - pos, 2nat,
{
    proof {
        assert(acc + Seq::<BodyItem>::empty() =~= acc);
    }
    match detect_open_tag(s, pos, hi) {
        Some(TagName::Skill) => match try_parse_skill_ref(s, offs, pos, hi)? {
            Some((sr, end)) => {
                let ghost x = BodyItem::Ref(sr@);
                parts.skill_refs.push(sr);
                proof {
                    lemma_items_push(acc, x);
                    assert(acc + seq![x] =~= acc.push(x));
                    assert(parts.skill_refs.deep_view() =~= old(parts).skill_refs.deep_view().push(x->Ref_0));
                }
                let g: Ghost<Seq<BodyItem>> = Ghost(Seq::empty().push(x));
                Ok((end, g))
            },
            None => {
                let (node, end) = parse_skill_tag(s, offs, pos, hi)?;
                add_interface_child(parts, node, end, Ghost(acc))
            },
        },
        Some(TagName::Tool) => match try_parse_tool_constraint(s, offs, pos, hi)? {
            Some((tc, end)) => {
                let ghost x = BodyItem::Constraint(tc@);
                parts.tool_constraints.push(tc);
                proof {
                    lemma_items_push(acc, x);
                    assert(acc + seq![x] =~= acc.push(x));
                    assert(parts.tool_constraints.deep_view() =~= old(parts).tool_constraints.deep_view().push(x->Constraint_0));
                }
                let g: Ghost<Seq<BodyItem>> = Ghost(Seq::empty().push(x));
                Ok((end, g))
            },
            None => {
                let (node, end) = parse_directive_tag(TagName::Tool, s, offs, pos, hi)?;
                add_interface_child(parts, node, end, Ghost(acc))
            },
        },
        Some(TagName::Param) => {
            let nothing: Ghost<Seq<BodyItem>> = Ghost(Seq::empty());
            Ok((pos + 1, nothing))
        },
        Some(tag) => {
            let (node, end) = parse_directive_tag(tag, s, offs, pos, hi)?;
            add_interface_child(parts, node, end, Ghost(acc))
        },
        None => {
            let text_end = match find_next_interface_tag(s, pos, hi) {
                Some(i) => i,
                None => hi,
            };
            if text_end > pos {
                add_interface_child(parts, decoded_text(s, pos, text_end), text_end, Ghost(acc))
            } else {
                add_interface_child(parts, raw_text(s, pos, pos + 1), pos + 1, Ghost(acc))
            }
        },
    }
}

/// Try to parse `<skill ref="..." role="..."/>` (or its wrapping form) inside an interface
/// body; `None` when the tag has no `ref` attribute.
pub fn try_parse_skill_ref(s: &[char], offs: &[usize], lo: usize, hi: usize) -> (r: Result<Option<(SkillRef, usize)>, ParseError>)
    requires
        region_ok(s@, offs@, lo as int, hi as int),
        open_tag_at(s@, lo as int, hi as int) == Some(TagName::Skill),
    ensures
        match r {
            Ok(Some((sr, end))) => lo < end <= hi && skill_ref_of(s@, offs@, lo as int, hi as int) == Some(
                Some((sr@, end as int)),
            ),
            Ok(None) => skill_ref_of(s@, offs@, lo as int, hi as int) == Some(None::<(SpecSkillRef, int)>),
            Err(x) => skill_ref_of(s@, offs@, lo as int, hi as int) is None && span_is(x, decl_error_span(
                s@,
                offs@,
                lo as int,
                hi as int,
                "skill"@,
            )) && x.message@ == skill_ref_error(
                s@,
                lo as int,
                hi as int,
            ),
        },
{
    proof {
        reveal(skill_ref_error);
    }
    proof {
        lemma_plain_names();
        reveal_strlit("skill");
        reveal_strlit("</skill>");
        assert(offs@[lo as int] <= offs@[hi as int] <= offs@[s@.len() as int]);
    }
    let name = lit("skill");
    let (e, sc, attrs) = read_open_tag(s, offs, lo, hi, name.as_slice(), "unclosed <skill> tag")?;
    let ref_name = match get_attr(&attrs, "ref") {
        Some(n) => n,
        None => {
            return Ok(None);
        },
    };
    check_ref_conflicts(&attrs, ref_name.as_str(), offs[lo], offs[e + 1])?;
    let role = get_attr(&attrs, "role");
    if sc {
        let end = e + 1;
        return Ok(Some((SkillRef { ref_name, role, span: span_of(offs, lo, end) }, end)));
    }
    let cs = e + 1;
    let close = lit("</skill>");
    let ce = match find_from(s, cs, hi, &close) {
        Some(c) => c,
        None => {
            return Err(error(String::from_str("unclosed <skill ref> tag"), offs[lo], offs[cs]));
        },
    };
    let end = ce + 8;
    Ok(Some((SkillRef { ref_name, role, span: span_of(offs, lo, end) }, end)))
}

/// The first of `interface`, `impl`, `define` and `name` among the attributes.
fn first_ref_conflict(attrs: &Vec<(String, String)>) -> (r: Option<&'static str>)
    ensures
        r is None <==> !ref_conflict(attrs_view(attrs@)),
        r matches Some(c) ==> c@ == first_conflict(attrs_view(attrs@)),
{
    if has_attr(attrs, "interface") {
        Some("interface")
    } else if has_attr(attrs, "impl") {
        Some("impl")
    } else if has_attr(attrs, "define") {
        Some("define")
    } else if has_attr(attrs, "name") {
        Some("name")
    } else {
        None
    }
}

/// A skill reference must not also carry `interface`, `impl`, `define` or `name`.
fn check_ref_conflicts(attrs: &Vec<(String, String)>, ref_name: &str, start: usize, end: usize) -> (r: Result<(), ParseError>)
    requires
        attr_get(attrs_view(attrs@), "ref"@) == Some(ref_name@),
    ensures
        r is Ok <==> !ref_conflict(attrs_view(attrs@)),
        r matches Err(e) ==> e.message@ == ref_conflict_error(attrs_view(attrs@)) && e.span.start == start
            && e.span.end == end,
{
    proof {
        reveal(ref_conflict_error);
    }
    match first_ref_conflict(attrs) {
        Some(c) => {
            let mut msg = join3("<skill ref=\"", ref_name, "\"> must not have '");
            msg.append(c);
            msg.append("' attribute");
            Err(error(msg, start, end))
        },
        None => Ok(()),
    }
}

/// Try to parse `<skill ref="...">` within an implementation body, self-closing or
/// wrapping; the `<node>` declarations of a wrapping form are appended to `parent_nodes`.
pub fn try_parse_skill_ref_with_content(
    s: &[char],
    offs: &[usize],
    lo: usize,
    hi: usize,
    parent_nodes: &mut Vec<NodeDecl>,
) -> (r: Result<Option<(SkillRef, usize)>, ParseError>)
    requires
        region_ok(s@, offs@, lo as int, hi as int),
        open_tag_at(s@, lo as int, hi as int) == Some(TagName::Skill),
    ensures
        match r {
            Ok(Some((sr, end))) => lo < end <= hi && (impl_ref_of(s@, offs@, lo as int, hi as int) matches Some(
                Some((ds, x, e2)),
            ) && x == sr@ && e2 == end && final(parent_nodes).deep_view() == old(parent_nodes).deep_view() + ds),
            Ok(None) => impl_ref_of(s@, offs@, lo as int, hi as int) == Some(
                None::<(Seq<crate::ast::SpecNodeDecl>, SpecSkillRef, int)>,
            ) && final(parent_nodes)@ == old(parent_nodes)@,
            Err(x) => impl_ref_of(s@, offs@, lo as int, hi as int) is None && span_is(x, crate::grammar::impl_ref_error_span(
                s@,
                offs@,
                lo as int,
                hi as int,
            )) && x.message@ == crate::grammar::impl_ref_error(
                s@,
                offs@,
                lo as int,
                hi as int,
            ),
        },
    decreases hi - lo, 0nat,
{
    proof {
        lemma_plain_names();
        reveal_strlit("skill");
        assert(offs@[lo as int] <= offs@[hi as int] <= offs@[s@.len() as int]);
    }
    let name = lit("skill");
    let (e, sc, attrs) = read_open_tag(s, offs, lo, hi, name.as_slice(), "unclosed <skill> tag")?;
    let ref_name = match get_attr(&attrs, "ref") {
        Some(n) => n,
        None => {
            return Ok(None);
        },
    };
    check_ref_conflicts(&attrs, ref_name.as_str(), offs[lo], offs[e + 1])?;
    let role = get_attr(&attrs, "role");
    if sc {
        let end = e + 1;
        assert(parent_nodes.deep_view() =~= old(parent_nodes).deep_view() + Seq::<crate::ast::SpecNodeDecl>::empty());
        return Ok(Some((SkillRef { ref_name, role, span: span_of(offs, lo, end) }, end)));
    }
    let cs = e + 1;
    let ce = find_matching_close(name.as_slice(), s, offs, cs, hi)?;
    let mut inner = parse_implementation_body(s, offs, cs, ce)?;
    let ghost inner_nodes = inner.nodes.deep_view();
    parent_nodes.append(&mut inner.nodes);
    assert(parent_nodes.deep_view() =~= old(parent_nodes).deep_view() + inner_nodes);
    let end = ce + 8;
    Ok(Some((SkillRef { ref_name, role, span: span_of(offs, lo, end) }, end)))
}

/// Try to parse a self-closing `<tool allow="..."/>` or `<tool deny="..."/>` as an
/// interface constraint; `None` when it is not one.
pub fn try_parse_tool_constraint(s: &[char], offs: &[usize], lo: usize, hi: usize) -> (r: Result<Option<(ToolConstraint, usize)>, ParseError>)
    requires
        region_ok(s@, offs@, lo as int, hi as int),
        open_tag_at(s@, lo as int, hi as int) == Some(TagName::Tool),
    ensures
        match r {
            Ok(Some((tc, end))) => lo < end <= hi && tool_constraint_of(s@, offs@, lo as int, hi as int) == Some(
                Some((tc@, end as int)),
            ),
            Ok(None) => tool_constraint_of(s@, offs@, lo as int, hi as int) == Some(None::<(SpecToolConstraint, int)>),
            Err(x) => tool_constraint_of(s@, offs@, lo as int, hi as int) is None && span_is(
                x,
                tool_constraint_error_span(s@, offs@, lo as int, hi as int),
            ) && x.message@ == tool_constraint_error(
                s@,
                lo as int,
                hi as int,
            ),
        },
{
    proof {
        reveal(tool_constraint_error);
    }
    proof {
        lemma_plain_names();
        reveal_strlit("tool");
        assert(offs@[lo as int] <= offs@[hi as int] <= offs@[s@.len() as int]);
    }
    let e = match find_tag_end(s, lo, hi) {
        Some(e) => e,
        None => {
            let (a, b) = unclosed_span(offs, lo, hi);
            return Err(error(String::from_str("unclosed <tool> tag"), a, b));
        },
    };
    if s[e - 1] != '/' {
        return Ok(None);
    }
    proof {
        lemma_self_closing_past_name(s@, lo as int, hi as int, "tool"@, e as int);
    }
    let attrs = parse_attributes(s, lo + 5, e - 1, offs)?;
    let has_allow = has_attr(&attrs, "allow");
    let has_deny = has_attr(&attrs, "deny");
    let has_name = has_attr(&attrs, "name");
    let has_use = has_attr(&attrs, "use");
    if !has_allow && !has_deny {
        return Ok(None);
    }
    if has_name || has_use {
        return Ok(None);
    }
    let allow = match get_attr(&attrs, "allow") {
        Some(v) => parse_tool_list(v.as_str()),
        None => Vec::new(),
    };
    assert(crate::text::strings_view(allow@) =~= match attr_get(attrs_view(attrs@), "allow"@) {
        Some(v) => list_items(v),
        None => Seq::empty(),
    });
    let deny = match get_attr(&attrs, "deny") {
        Some(v) => parse_tool_list(v.as_str()),
        None => Vec::new(),
    };
    assert(crate::text::strings_view(deny@) =~= match attr_get(attrs_view(attrs@), "deny"@) {
        Some(v) => list_items(v),
        None => Seq::empty(),
    });
    assert(tag_end(s@, lo as int, hi as int) == Some(e as int));
    assert(self_closing(s@, e as int));
    assert(attributes_of(s@.subrange(lo + 5, e - 1)) == AttrOutcome::Parsed(attrs_view(attrs@)));
    let end = e + 1;
    proof {
        assert(crate::ast::strs_view(allow@) =~= crate::text::strings_view(allow@));
        assert(crate::ast::strs_view(deny@) =~= crate::text::strings_view(deny@));
    }
    Ok(Some((ToolConstraint { allow, deny, span: span_of(offs, lo, end) }, end)))
}

/// The comma-separated, trimmed, non-empty tool names of `value`.
pub fn parse_tool_list(value: &str) -> (r: Vec<String>)
    ensures
        crate::text::strings_view(r@) == crate::text::list_items(value@),
{
    let v = crate::text::chars_of(value);
    assert(v@.subrange(0, v@.len() as int) =~= v@);
    list_items_of(v.as_slice(), 0, v.len())
}

/// The comma-separated, trimmed, non-empty glob patterns of `value`.
pub fn parse_io_patterns(value: &str) -> (r: Vec<String>)
    ensures
        crate::text::strings_view(r@) == crate::text::list_items(value@),
{
    parse_tool_list(value)
}

/// Parse a `<param>` declaration inside an interface definition, self-closing or with a
/// description.
pub fn parse_param_decl(s: &[char], offs: &[usize], lo: usize, hi: usize) -> (r: Result<(ParamDecl, usize), ParseError>)
    requires
        region_ok(s@, offs@, lo as int, hi as int),
        opens_tag(s@, lo as int, hi as int, "param"@),
    ensures
        match r {
            Ok((d, end)) => lo < end <= hi && param_decl_of(s@, offs@, lo as int, hi as int) == Some((d@, end as int)),
            Err(x) => param_decl_of(s@, offs@, lo as int, hi as int) is None && span_is(x, decl_error_span(
                s@,
                offs@,
                lo as int,
                hi as int,
                "param"@,
            )) && x.message@ == param_decl_error(
                s@,
                lo as int,
                hi as int,
            ),
        },
{
    proof {
        reveal(param_decl_error);
    }
    proof {
        lemma_plain_names();
        reveal_strlit("param");
        reveal_strlit("</param>");
        assert(offs@[lo as int] <= offs@[hi as int] <= offs@[s@.len() as int]);
    }
    let name = lit("param");
    let (e, sc, attrs) = read_open_tag(s, offs, lo, hi, name.as_slice(), "unclosed <param> declaration tag")?;
    let pname = match get_attr(&attrs, "name") {
        Some(n) => n,
        None => {
            return Err(
                error(String::from_str("<param> declaration missing 'name' attribute"), offs[lo], offs[e + 1]),
            );
        },
    };
    let required = required_value(&attrs, offs[lo], offs[e + 1])?;
    if sc {
        let end = e + 1;
        return Ok((
            ParamDecl {
                name: pname,
                param_type: get_attr(&attrs, "type"),
                required,
                default: get_attr(&attrs, "default"),
                values: get_attr(&attrs, "values"),
                description: None,
                span: span_of(offs, lo, end),
            },
            end,
        ));
    }
    let cs = e + 1;
    let close = lit("</param>");
    let ce = match find_from(s, cs, hi, &close) {
        Some(c) => c,
        None => {
            return Err(error(String::from_str("unclosed <param> declaration tag"), offs[lo], offs[cs]));
        },
    };
    let description = decoded_trimmed(s, cs, ce);
    let end = ce + 8;
    Ok((
        ParamDecl {
            name: pname,
            param_type: get_attr(&attrs, "type"),
            required,
            default: get_attr(&attrs, "default"),
            values: get_attr(&attrs, "values"),
            description,
            span: span_of(offs, lo, end),
        },
        end,
    ))
}

/// The description held by `s[a..b]`: entities decoded, then trimmed; `None` when empty.
fn decoded_trimmed(s: &[char], a: usize, b: usize) -> (r: Option<String>)
    requires
        a <= b <= s@.len(),
    ensures
        match r {
            Some(t) => t@ == crate::text::trim(crate::scan::decode(s@.subrange(a as int, b as int))) && t@.len() > 0,
            None => crate::text::trim(crate::scan::decode(s@.subrange(a as int, b as int))).len() == 0,
        },
{
    let v = decode_entities(s, a, b);
    let (x, y) = trim_bounds(v.as_slice(), 0, v.len());
    assert(v@.subrange(0, v@.len() as int) =~= v@);
    if x == y {
        None
    } else {
        Some(string_of(v.as_slice(), x, y))
    }
}

/// Parse a `<returns>` declaration inside an interface definition.
pub fn parse_returns_decl(s: &[char], offs: &[usize], lo: usize, hi: usize) -> (r: Result<(ReturnDecl, usize), ParseError>)
    requires
        region_ok(s@, offs@, lo as int, hi as int),
        opens_tag(s@, lo as int, hi as int, "returns"@),
    ensures
        match r {
            Ok((d, end)) => lo < end <= hi && returns_decl_of(s@, offs@, lo as int, hi as int) == Some((d@, end as int)),
            Err(x) => returns_decl_of(s@, offs@, lo as int, hi as int) is None && span_is(x, decl_error_span(
                s@,
                offs@,
                lo as int,
                hi as int,
                "returns"@,
            )) && x.message@ == returns_decl_error(
                s@,
                lo as int,
                hi as int,
            ),
        },
{
    proof {
        reveal(returns_decl_error);
    }
    proof {
        lemma_plain_names();
        reveal_strlit("returns");
        reveal_strlit("</returns>");
        assert(offs@[lo as int] <= offs@[hi as int] <= offs@[s@.len() as int]);
    }
    let name = lit("returns");
    let (e, sc, attrs) = read_open_tag(s, offs, lo, hi, name.as_slice(), "unclosed <returns> declaration tag")?;
    let rname = match get_attr(&attrs, "name") {
        Some(n) => n,
        None => {
            return Err(
                error(String::from_str("<returns> declaration missing 'name' attribute"), offs[lo], offs[e + 1]),
            );
        },
    };
    if sc {
        let end = e + 1;
        return Ok((
            ReturnDecl {
                name: rname,
                return_type: get_attr(&attrs, "type"),
                values: get_attr(&attrs, "values"),
                description: None,
                span: span_of(offs, lo, end),
            },
            end,
        ));
    }
    let cs = e + 1;
    let close = lit("</returns>");
    let ce = match find_from(s, cs, hi, &close) {
        Some(c) => c,
        None => {
            return Err(error(String::from_str("unclosed <returns> declaration tag"), offs[lo], offs[cs]));
        },
    };
    let description = decoded_trimmed(s, cs, ce);
    let end = ce + 10;
    Ok((
        ReturnDecl {
            name: rname,
            return_type: get_attr(&attrs, "type"),
            values: get_attr(&attrs, "values"),
            description,
            span: span_of(offs, lo, end),
        },
        end,
    ))
}

/// Parse a `<reads>` or `<writes>` declaration: patterns from a `patterns` attribute
/// (self-closing form) or from the comma-separated body.
pub fn parse_io_decl(tag: DeclTag, s: &[char], offs: &[usize], lo: usize, hi: usize) -> (r: Result<(IoDecl, usize), ParseError>)
    requires
        region_ok(s@, offs@, lo as int, hi as int),
        tag is Reads || tag is Writes,
        opens_tag(s@, lo as int, hi as int, crate::scan::decl_text(tag)),
    ensures
        match r {
            Ok((d, end)) => lo < end <= hi && io_decl_of(decl_text(tag), s@, offs@, lo as int, hi as int) == Some(
                (d@, end as int),
            ),
            Err(x) => io_decl_of(decl_text(tag), s@, offs@, lo as int, hi as int) is None && span_is(x, decl_error_span(
                s@,
                offs@,
                lo as int,
                hi as int,
                decl_text(tag),
            )) && x.message@ == io_decl_error(
                decl_text(tag),
                s@,
                lo as int,
                hi as int,
            ),
        },
{
    proof {
        reveal(io_decl_error);
    }
    proof {
        lemma_plain_names();
        reveal_strlit("reads");
        reveal_strlit("writes");
        assert(offs@[lo as int] <= offs@[hi as int] <= offs@[s@.len() as int]);
    }
    let name = lit(tag.as_str());
    let (e, sc, attrs) = read_open_tag(s, offs, lo, hi, name.as_slice(), "unclosed I/O declaration tag")?;
    if sc {
        let patterns = match get_attr(&attrs, "patterns") {
            Some(p) => parse_io_patterns(p.as_str()),
            None => parse_io_patterns(""),
        };
        let end = e + 1;
        proof {
            reveal_strlit("");
            assert(crate::ast::strs_view(patterns@) =~= crate::text::strings_view(patterns@));
        }
        return Ok((IoDecl { patterns, span: span_of(offs, lo, end) }, end));
    }
    let cs = e + 1;
    proof {
        reveal_strlit("</");
        reveal_strlit(">");
    }
    let close = join3("</", tag.as_str(), ">");
    let close_chars = lit(close.as_str());
    let ce = match find_from(s, cs, hi, &close_chars) {
        Some(c) => c,
        None => {
            return Err(
                error(join3("unclosed <", tag.as_str(), "> declaration tag"), offs[lo], offs[cs]),
            );
        },
    };
    let patterns = list_items_of(s, cs, ce);
    let end = ce + tag.len() + 3;
    assert(crate::ast::strs_view(patterns@) =~= crate::text::strings_view(patterns@));
    Ok((IoDecl { patterns, span: span_of(offs, lo, end) }, end))
}

/// The parts of a contract body gathered so far are those the items hold (children not
/// yet merged).
pub open spec fn contract_parts_hold(b: ParsedContractBody, items: Seq<BodyItem>) -> bool {
    &&& FieldDecl::models(b.fields@) == item_fields(items)
    &&& Node::models(b.children@) == item_children(items)
}

/// Parse the body of a contract definition, extracting field declarations.
pub fn parse_contract_body(s: &[char], offs: &[usize], lo: usize, hi: usize) -> (r: Result<ParsedContractBody, ParseError>)
    requires
        region_ok(s@, offs@, lo as int, hi as int),
    ensures
        match r {
            Ok(b) => (items_scan(Ctx::Contract, s@, offs@, lo as int, hi as int) matches Some(items)
                && contract_body_is(b, items)),
            Err(x) => items_scan(Ctx::Contract, s@, offs@, lo as int, hi as int) is None && span_is(x, scan_error_span(
                Ctx::Contract,
                s@,
                offs@,
                lo as int,
                hi as int,
            )) && x.message@ == scan_error(
                Ctx::Contract,
                s@,
                offs@,
                lo as int,
                hi as int,
            ),
        },
        r matches Ok(b) ==> texts_merged(Node::models(b.children@)),
    decreases hi - lo, 4nat,
{
    proof {
        lemma_scan_start(Ctx::Contract, s@, offs@, lo as int, hi as int);
        lemma_items_empty();
    }
    let mut parts = ParsedContractBody { fields: Vec::new(), children: Vec::new() };
    let ghost mut acc: Seq<BodyItem> = Seq::empty();
    assert(contract_parts_hold(parts, acc)) by {
        assert(FieldDecl::models(parts.fields@) =~= item_fields(acc));
        assert(Node::models(parts.children@) =~= item_children(acc));
    }
    let mut pos = lo;
    while pos < hi
        invariant
            region_ok(s@, offs@, lo as int, hi as int),
            lo <= pos <= hi,
            items_scan(Ctx::Contract, s@, offs@, lo as int, hi as int) == glue_items(
                acc,
                items_scan(Ctx::Contract, s@, offs@, pos as int, hi as int),
            ),
            scan_error(Ctx::Contract, s@, offs@, lo as int, hi as int) == scan_error(Ctx::Contract, s@, offs@, pos as int, hi as int),
            scan_error_span(Ctx::Contract, s@, offs@, lo as int, hi as int) == scan_error_span(Ctx::Contract, s@, offs@, pos as int, hi as int),
            contract_parts_hold(parts, acc),
        decreases hi - pos,
    {
        let ghost p0 = pos as int;
        match contract_step(s, offs, pos, hi, &mut parts, Ghost(acc)) {
            Ok((next, xs)) => {
                proof {
                    lemma_scan_advance(Ctx::Contract, s@, offs@, p0, hi as int, next as int, xs@, acc);
                    acc = acc + xs@;
                }
                pos = next;
            },
            Err(err) => {
                proof {
                    lemma_scan_fail(Ctx::Contract, s@, offs@, p0, hi as int);
                }
                return Err(err);
            },
        }
    }
    proof {
        lemma_scan_end(Ctx::Contract, s@, offs@, pos as int, hi as int, acc);
    }
    merge_text_nodes(&mut parts.children);
    Ok(parts)
}

/// One step of a contract body scan at `pos`: the parts gain the items the step yields.
fn contract_step(
    s: &[char],
    offs: &[usize],
    pos: usize,
    hi: usize,
    parts: &mut ParsedContractBody,
    Ghost(acc): Ghost<Seq<BodyItem>>,
) -> (r: Result<(usize, Ghost<Seq<BodyItem>>), ParseError>)
    requires
        region_ok(s@, offs@, pos as int, hi as int),
        pos < hi,
        contract_parts_hold(*old(parts), acc),
    ensures
        match r {
            Ok((next, xs)) => pos < next <= hi && step(Ctx::Contract, s@, offs@, pos as int, hi as int) == Some(
                (xs@, next as int),
            ) && contract_parts_hold(*final(parts), acc + xs@),
            Err(x) => step(Ctx::Contract, s@, offs@, pos as int, hi as int) is None && span_is(x, step_error_span(
                Ctx::Contract,
                s@,
                offs@,
                pos as int,
                hi as int,
            )) && x.message@ == step_error(
                Ctx::Contract,
                s@,
                offs@,
                pos as int,
                hi as int,
            ),
        },
    decreases hi - pos, 3nat,
{
    proof {
        reveal_strlit("<!--");
        reveal_strlit("-->");
        reveal_strlit(">");
        reveal_with_fuel(step, 2);
        assert(acc + Seq::<BodyItem>::empty() =~= acc);
    }
    let comment_open = lit("<!--");
    let comment_close = lit("-->");
    let gt = lit(">");
    let nothing: Ghost<Seq<BodyItem>> = Ghost(Seq::empty());
    proof {
        if !crate::scan::starts_at(s@, pos as int, hi as int, "<!--"@) {
            crate::grammar::lemma_step_error_of(Ctx::Contract, s@, offs@, pos as int, hi as int);
        }
    }
    if starts_with_at(s, pos, hi, &comment_open) {
        return match find_from(s, pos, hi, &comment_close) {
            Some(e) => Ok((e + 3, nothing)),
            None => add_contract_child(parts, raw_text(s, pos, hi), hi, Ghost(acc)),
        };
    }
    if detect_contract_decl_tag(s, pos, hi).is_some() {
        proof {
            crate::scan::lemma_first_decl_open(s@, pos as int, hi as int, crate::scan::body_decls(crate::scan::Body::Contract));
        }
        let (d, end) = parse_field_decl(s, offs, pos, hi)?;
        let ghost x = BodyItem::Field(d@);
        parts.fields.push(d);
        proof {
            lemma_items_push(acc, x);
            assert(acc + seq![x] =~= acc.push(x));
            assert(FieldDecl::models(parts.fields@) =~= FieldDecl::models(old(parts).fields@).push(d@));
        }
        let g: Ghost<Seq<BodyItem>> = Ghost(Seq::empty().push(x));
        return Ok((end, g));
    }
    if detect_contract_close_tag(s, pos, hi).is_some() {
        return match find_from(s, pos, hi, &gt) {
            Some(e) => Ok((e + 1, nothing)),
            None => Ok((pos + 1, nothing)),
        };
    }
    match detect_open_tag(s, pos, hi) {
        Some(TagName::Skill) => {
            let (node, end) = parse_skill_tag(s, offs, pos, hi)?;
            add_contract_child(parts, node, end, Ghost(acc))
        },
        Some(TagName::Param) => match find_from(s, pos, hi, &gt) {
            Some(e) => add_contract_child(parts, raw_text(s, pos, e + 1), e + 1, Ghost(acc)),
            None => add_contract_child(parts, raw_text(s, pos, hi), hi, Ghost(acc)),
        },
        Some(tag) => {
            let (node, end) = parse_directive_tag(tag, s, offs, pos, hi)?;
            add_contract_child(parts, node, end, Ghost(acc))
        },
        None => {
            let text_end = match find_next_contract_tag(s, pos, hi) {
                Some(i) => i,
                None => hi,
            };
            if text_end > pos {
                add_contract_child(parts, decoded_text(s, pos, text_end), text_end, Ghost(acc))
            } else {
                add_contract_child(parts, raw_text(s, pos, pos + 1), pos + 1, Ghost(acc))
            }
        },
    }
}

/// Append `s[a..b]` to `out`.
fn push_chars(out: &mut Vec<char>, s: &[char], a: usize, b: usize)
    requires
        a <= b <= s@.len(),
    ensures
        final(out)@ == old(out)@ + s@.subrange(a as int, b as int),
{
    let mut i = a;
    while i < b
        invariant
            a <= i <= b <= s@.len(),
            out@ == old(out)@ + s@.subrange(a as int, i as int),
        decreases b - i,
    {
        out.push(s[i]);
        assert(out@ =~= old(out)@ + s@.subrange(a as int, i + 1));
        i = i + 1;
    }
}

/// Parse a `<field>` declaration inside a contract definition: self-closing, with a text
/// Parse a `<field>` declaration inside a contract definition; wrapping fields hold nested
/// fields and a description.
pub fn parse_field_decl(s: &[char], offs: &[usize], lo: usize, hi: usize) -> (r: Result<(FieldDecl, usize), ParseError>)
    requires
        region_ok(s@, offs@, lo as int, hi as int),
        opens_tag(s@, lo as int, hi as int, "field"@),
    ensures
        match r {
            Ok((d, end)) => lo < end <= hi && field_decl_of(s@, offs@, lo as int, hi as int) == Some((d@, end as int)),
            Err(x) => field_decl_of(s@, offs@, lo as int, hi as int) is None && span_is(
                x,
                field_decl_error_span(s@, offs@, lo as int, hi as int),
            ) && x.message@ == field_decl_error(
                s@,
                offs@,
                lo as int,
                hi as int,
            ),
        },
    decreases hi - lo, 1nat,
{
    proof {
        lemma_plain_names();
        reveal_strlit("field");
        assert(offs@[lo as int] <= offs@[hi as int] <= offs@[s@.len() as int]);
    }
    let name = lit("field");
    let (e, sc, attrs) = read_open_tag(s, offs, lo, hi, name.as_slice(), "unclosed <field> declaration tag")?;
    let fname = match get_attr(&attrs, "name") {
        Some(n) => n,
        None => {
            return Err(
                error(String::from_str("<field> declaration missing 'name' attribute"), offs[lo], offs[e + 1]),
            );
        },
    };
    let required = match required_value(&attrs, offs[lo], offs[e + 1])? {
        Some(b) => b,
        None => false,
    };
    if sc {
        let end = e + 1;
        let children: Vec<FieldDecl> = Vec::new();
        assert(FieldDecl::models(children@) =~= Seq::<SpecFieldDecl>::empty());
        return Ok((
            FieldDecl {
                name: fname,
                field_type: get_attr(&attrs, "type"),
                required,
                default: get_attr(&attrs, "default"),
                values: get_attr(&attrs, "values"),
                children,
                description: None,
                span: span_of(offs, lo, end),
            },
            end,
        ));
    }
    let cs = e + 1;
    let ce = find_matching_close(name.as_slice(), s, offs, cs, hi)?;
    let (children, text) = scan_field_body(s, offs, cs, ce)?;
    let description = decoded_trimmed(text.as_slice(), 0, text.len());
    assert(text@.subrange(0, text@.len() as int) =~= text@);
    let end = ce + 8;
    Ok((
        FieldDecl {
            name: fname,
            field_type: get_attr(&attrs, "type"),
            required,
            default: get_attr(&attrs, "default"),
            values: get_attr(&attrs, "values"),
            children,
            description,
            span: span_of(offs, lo, end),
        },
        end,
    ))
}

/// The nested fields and the description text of a field body `s[cs..ce]`.
fn scan_field_body(s: &[char], offs: &[usize], cs: usize, ce: usize) -> (r: Result<(Vec<FieldDecl>, Vec<char>), ParseError>)
    requires
        region_ok(s@, offs@, cs as int, ce as int),
    ensures
        match r {
            Ok((c, t)) => field_body_scan(s@, offs@, cs as int, ce as int) == Some((FieldDecl::models(c@), t@)),
            Err(x) => field_body_scan(s@, offs@, cs as int, ce as int) is None && span_is(
                x,
                field_body_error_span(s@, offs@, cs as int, ce as int),
            ) && x.message@ == field_body_error(
                s@,
                offs@,
                cs as int,
                ce as int,
            ),
        },
    decreases ce - cs + 1, 0nat,
{
    proof {
        reveal_strlit("<!--");
        reveal_strlit("-->");
        reveal_strlit(">");
    }
    let comment_open = lit("<!--");
    let comment_close = lit("-->");
    let gt = lit(">");
    let mut children: Vec<FieldDecl> = Vec::new();
    let mut text: Vec<char> = Vec::new();
    let mut pos = cs;
    assert(FieldDecl::models(children@) =~= Seq::<SpecFieldDecl>::empty());
    assert(glue(Seq::<SpecFieldDecl>::empty(), Seq::<char>::empty(), field_body_scan(s@, offs@, cs as int, ce as int))
        =~= field_body_scan(s@, offs@, cs as int, ce as int)) by {
        match field_body_scan(s@, offs@, cs as int, ce as int) {
            Some((c2, t2)) => {
                assert(Seq::<SpecFieldDecl>::empty() + c2 =~= c2);
                assert(Seq::<char>::empty() + t2 =~= t2);
            },
            None => {},
        }
    }
    while pos < ce
        invariant
            region_ok(s@, offs@, cs as int, ce as int),
            cs <= pos <= ce,
            comment_open@ == "<!--"@,
            comment_close@ == "-->"@,
            comment_close@.len() == 3,
            gt@ == ">"@,
            gt@.len() == 1,
            field_body_scan(s@, offs@, cs as int, ce as int) == glue(
                FieldDecl::models(children@),
                text@,
                field_body_scan(s@, offs@, pos as int, ce as int),
            ),
            field_body_error(s@, offs@, cs as int, ce as int) == field_body_error(s@, offs@, pos as int, ce as int),
            field_body_error_span(s@, offs@, cs as int, ce as int) == field_body_error_span(s@, offs@, pos as int, ce as int),
        decreases ce - pos,
    {
        let ghost c0 = FieldDecl::models(children@);
        let ghost t0 = text@;
        let ghost p0 = pos as int;
        if starts_with_at(s, pos, ce, &comment_open) {
            match find_from(s, pos, ce, &comment_close) {
                Some(x) => {
                    pos = x + 3;
                },
                None => {
                    push_chars(&mut text, s, pos, ce);
                    pos = ce;
                    assert(text@ =~= t0 + s@.subrange(p0, ce as int));
                    assert(c0 + Seq::<SpecFieldDecl>::empty() =~= c0);
                    assert(text@ + Seq::<char>::empty() =~= text@);
                },
            }
        } else if detect_contract_decl_tag(s, pos, ce).is_some() {
            proof {
                crate::scan::lemma_first_decl_open(s@, pos as int, ce as int, crate::scan::body_decls(crate::scan::Body::Contract));
            }
            let (child, end) = parse_field_decl(s, offs, pos, ce)?;
            children.push(child);
            pos = end;
            proof {
                assert(FieldDecl::models(children@) =~= c0.push(child@));
                match field_body_scan(s@, offs@, pos as int, ce as int) {
                    Some((c2, t2)) => {
                        assert(c0 + (seq![child@] + c2) =~= c0.push(child@) + c2);
                        assert(t0 + (Seq::<char>::empty() + t2) =~= t0 + t2);
                    },
                    None => {},
                }
            }
        } else if detect_contract_close_tag(s, pos, ce).is_some() {
            match find_from(s, pos, ce, &gt) {
                Some(x) => {
                    pos = x + 1;
                },
                None => {
                    pos = pos + 1;
                },
            }
        } else if detect_close_tag(s, pos, ce).is_some() || detect_open_tag(s, pos, ce).is_some() {
            match find_from(s, pos, ce, &gt) {
                Some(x) => {
                    push_chars(&mut text, s, pos, x + 1);
                    pos = x + 1;
                    proof {
                        match field_body_scan(s@, offs@, pos as int, ce as int) {
                            Some((c2, t2)) => {
                                assert(c0 + (Seq::<SpecFieldDecl>::empty() + c2) =~= c0 + c2);
                                assert(t0 + (s@.subrange(p0, pos as int) + t2) =~= text@ + t2);
                            },
                            None => {},
                        }
                    }
                },
                None => {
                    push_chars(&mut text, s, pos, ce);
                    pos = ce;
                    assert(c0 + Seq::<SpecFieldDecl>::empty() =~= c0);
                    assert(text@ + Seq::<char>::empty() =~= text@);
                },
            }
        } else {
            let text_end = match find_next_contract_tag(s, pos, ce) {
                Some(i) => i,
                None => ce,
            };
            if text_end > pos {
                push_chars(&mut text, s, pos, text_end);
                pos = text_end;
            } else {
                push_chars(&mut text, s, pos, pos + 1);
                pos = pos + 1;
            }
            proof {
                match field_body_scan(s@, offs@, pos as int, ce as int) {
                    Some((c2, t2)) => {
                        assert(c0 + (Seq::<SpecFieldDecl>::empty() + c2) =~= c0 + c2);
                        assert(t0 + (s@.subrange(p0, pos as int) + t2) =~= text@ + t2);
                    },
                    None => {},
                }
            }
        }
    }
    proof {
        assert(FieldDecl::models(children@) + Seq::<SpecFieldDecl>::empty() =~= FieldDecl::models(children@));
        assert(text@ + Seq::<char>::empty() =~= text@);
    }
    Ok((children, text))
}

/// The parts of an implementation body gathered so far are those the items hold
/// (children not yet merged).
pub open spec fn implementation_parts_hold(b: ParsedImplementationBody, items: Seq<BodyItem>) -> bool {
    &&& b.nodes.deep_view() == item_node_decls(items)
    &&& b.skill_refs.deep_view() == item_refs(items)
    &&& Node::models(b.children@) == item_children(items)
}

/// Parse the body of an implementation definition, extracting node declarations and
/// skill references.
pub fn parse_implementation_body(s: &[char], offs: &[usize], lo: usize, hi: usize) -> (r: Result<ParsedImplementationBody, ParseError>)
    requires
        region_ok(s@, offs@, lo as int, hi as int),
    ensures
        match r {
            Ok(b) => (items_scan(Ctx::Implementation, s@, offs@, lo as int, hi as int) matches Some(items)
                && implementation_body_is(b, items)),
            Err(x) => items_scan(Ctx::Implementation, s@, offs@, lo as int, hi as int) is None && span_is(x, scan_error_span(
                Ctx::Implementation,
                s@,
                offs@,
                lo as int,
                hi as int,
            )) && x.message@ == scan_error(
                Ctx::Implementation,
                s@,
                offs@,
                lo as int,
                hi as int,
            ),
        },
        r matches Ok(b) ==> texts_merged(Node::models(b.children@)),
    decreases hi - lo, 4nat,
{
    proof {
        lemma_scan_start(Ctx::Implementation, s@, offs@, lo as int, hi as int);
        lemma_items_empty();
    }
    let mut parts = ParsedImplementationBody { nodes: Vec::new(), skill_refs: Vec::new(), children: Vec::new() };
    let ghost mut acc: Seq<BodyItem> = Seq::empty();
    assert(implementation_parts_hold(parts, acc)) by {
        assert(parts.nodes.deep_view() =~= item_node_decls(acc));
        assert(parts.skill_refs.deep_view() =~= item_refs(acc));
        assert(Node::models(parts.children@) =~= item_children(acc));
    }
    let mut pos = lo;
    while pos < hi
        invariant
            region_ok(s@, offs@, lo as int, hi as int),
            lo <= pos <= hi,
            items_scan(Ctx::Implementation, s@, offs@, lo as int, hi as int) == glue_items(
                acc,
                items_scan(Ctx::Implementation, s@, offs@, pos as int, hi as int),
            ),
            scan_error(Ctx::Implementation, s@, offs@, lo as int, hi as int) == scan_error(Ctx::Implementation, s@, offs@, pos as int, hi as int),
            scan_error_span(Ctx::Implementation, s@, offs@, lo as int, hi as int) == scan_error_span(Ctx::Implementation, s@, offs@, pos as int, hi as int),
            implementation_parts_hold(parts, acc),
        decreases hi - pos,
    {
        let ghost p0 = pos as int;
        match implementation_step(s, offs, pos, hi, &mut parts, Ghost(acc)) {
            Ok((next, xs)) => {
                proof {
                    lemma_scan_advance(Ctx::Implementation, s@, offs@, p0, hi as int, next as int, xs@, acc);
                    acc = acc + xs@;
                }
                pos = next;
            },
            Err(err) => {
                proof {
                    lemma_scan_fail(Ctx::Implementation, s@, offs@, p0, hi as int);
                }
                return Err(err);
            },
        }
    }
    proof {
        lemma_scan_end(Ctx::Implementation, s@, offs@, pos as int, hi as int, acc);
    }
    merge_text_nodes(&mut parts.children);
    Ok(parts)
}

/// One step of an implementation body scan at `pos`: the parts gain the items the step
/// yields.
fn implementation_step(
    s: &[char],
    offs: &[usize],
    pos: usize,
    hi: usize,
    parts: &mut ParsedImplementationBody,
    Ghost(acc): Ghost<Seq<BodyItem>>,
) -> (r: Result<(usize, Ghost<Seq<BodyItem>>), ParseError>)
    requires
        region_ok(s@, offs@, pos as int, hi as int),
        pos < hi,
        implementation_parts_hold(*old(parts), acc),
    ensures
        match r {
            Ok((next, xs)) => pos < next <= hi && step(Ctx::Implementation, s@, offs@, pos as int, hi as int) == Some(
                (xs@, next as int),
            ) && implementation_parts_hold(*final(parts), acc + xs@),
            Err(x) => step(Ctx::Implementation, s@, offs@, pos as int, hi as int) is None && span_is(x, step_error_span(
                Ctx::Implementation,
                s@,
                offs@,
                pos as int,
                hi as int,
            )) && x.message@ == step_error(
                Ctx::Implementation,
                s@,
                offs@,
                pos as int,
                hi as int,
            ),
        },
    decreases hi - pos, 3nat,
{
    proof {
        reveal_strlit("<!--");
        reveal_strlit("-->");
        reveal_strlit(">");
        reveal_with_fuel(step, 2);
        assert(acc + Seq::<BodyItem>::empty() =~= acc);
    }
    let comment_open = lit("<!--");
    let comment_close = lit("-->");
    let gt = lit(">");
    proof {
        if !crate::scan::starts_at(s@, pos as int, hi as int, "<!--"@) {
            crate::grammar::lemma_step_error_of(Ctx::Implementation, s@, offs@, pos as int, hi as int);
        }
    }
    if starts_with_at(s, pos, hi, &comment_open) {
        match find_from(s, pos, hi, &comment_close) {
            Some(e) => {
                let g: Ghost<Seq<BodyItem>> = Ghost(Seq::empty());
                return Ok((e + 3, g));
            },
            None => {
                let t = raw_text(s, pos, hi);
                return add_implementation_child(parts, t, hi, Ghost(acc));
            },
        }
    }
    if detect_impl_decl_tag(s, pos, hi).is_some() {
        proof {
            crate::scan::lemma_first_decl_open(s@, pos as int, hi as int, crate::scan::body_decls(crate::scan::Body::Implementation));
        }
        let (d, end) = parse_node_decl(s, offs, pos, hi)?;
        let ghost x = BodyItem::NodeDecl(d@);
        parts.nodes.push(d);
        proof {
            lemma_items_push(acc, x);
            assert(acc + seq![x] =~= acc.push(x));
            assert(parts.nodes.deep_view() =~= old(parts).nodes.deep_view().push(d@));
        }
        let g: Ghost<Seq<BodyItem>> = Ghost(Seq::empty().push(x));
        return Ok((end, g));
    }
    if detect_impl_close_tag(s, pos, hi).is_some() {
        let next = match find_from(s, pos, hi, &gt) {
            Some(e) => e + 1,
            None => pos + 1,
        };
        let g: Ghost<Seq<BodyItem>> = Ghost(Seq::empty());
        return Ok((next, g));
    }
    implementation_tag_step(s, offs, pos, hi, parts, Ghost(acc))
}

/// A step of an implementation body scan at a `<skill>` tag: a reference, or a skill.
#[verifier::rlimit(100)]
#[verifier::spinoff_prover]
fn implementation_skill_step(
    s: &[char],
    offs: &[usize],
    pos: usize,
    hi: usize,
    parts: &mut ParsedImplementationBody,
    Ghost(acc): Ghost<Seq<BodyItem>>,
) -> (r: Result<(usize, Ghost<Seq<BodyItem>>), ParseError>)
    requires
        region_ok(s@, offs@, pos as int, hi as int),
        pos < hi,
        implementation_parts_hold(*old(parts), acc),
        crate::scan::open_tag_at(s@, pos as int, hi as int) == Some(TagName::Skill),
    ensures
        match r {
            Ok((next, xs)) => pos < next <= hi && crate::grammar::implementation_tag_step_of(s@, offs@, pos as int, hi as int)
                == Some((xs@, next as int)) && implementation_parts_hold(*final(parts), acc + xs@),
            Err(x) => crate::grammar::implementation_tag_step_of(s@, offs@, pos as int, hi as int) is None && span_is(x, crate::grammar::implementation_tag_step_error_span(s@, offs@, pos as int, hi as int)) && x.message@
                == crate::grammar::implementation_tag_step_error(s@, offs@, pos as int, hi as int),
        },
    decreases hi - pos, 1nat,
{
    proof {
        assert(acc + Seq::<BodyItem>::empty() =~= acc);
    }
    let ghost n0 = parts.nodes.deep_view();
    match try_parse_skill_ref_with_content(s, offs, pos, hi, &mut parts.nodes)? {
        Some((sr, end)) => {
            let ghost ds = impl_ref_of(s@, offs@, pos as int, hi as int).unwrap().unwrap().0;
            let ghost x1 = BodyItem::NodeDecls(ds);
            let ghost x2 = BodyItem::Ref(sr@);
            parts.skill_refs.push(sr);
            proof {
                lemma_items_push(acc, x1);
                lemma_items_push(acc.push(x1), x2);
                assert(acc + seq![x1, x2] =~= acc.push(x1).push(x2));
                assert(parts.skill_refs.deep_view() =~= old(parts).skill_refs.deep_view().push(sr@));
                assert(seq![x1, x2] =~= Seq::empty().push(x1).push(x2));
            }
            let g: Ghost<Seq<BodyItem>> = Ghost(Seq::empty().push(x1).push(x2));
            Ok((end, g))
        },
        None => {
            let (node, end) = parse_skill_tag(s, offs, pos, hi)?;
            add_implementation_child(parts, node, end, Ghost(acc))
        },
    }
}

/// A step of an implementation body scan where no declaration tag starts.
#[verifier::rlimit(100)]
#[verifier::spinoff_prover]
fn implementation_tag_step(
    s: &[char],
    offs: &[usize],
    pos: usize,
    hi: usize,
    parts: &mut ParsedImplementationBody,
    Ghost(acc): Ghost<Seq<BodyItem>>,
) -> (r: Result<(usize, Ghost<Seq<BodyItem>>), ParseError>)
    requires
        region_ok(s@, offs@, pos as int, hi as int),
        pos < hi,
        implementation_parts_hold(*old(parts), acc),
    ensures
        match r {
            Ok((next, xs)) => pos < next <= hi && crate::grammar::implementation_tag_step_of(s@, offs@, pos as int, hi as int)
                == Some((xs@, next as int)) && implementation_parts_hold(*final(parts), acc + xs@),
            Err(x) => crate::grammar::implementation_tag_step_of(s@, offs@, pos as int, hi as int) is None && span_is(x, crate::grammar::implementation_tag_step_error_span(s@, offs@, pos as int, hi as int)) && x.message@
                == crate::grammar::implementation_tag_step_error(s@, offs@, pos as int, hi as int),
        },
    decreases hi - pos, 2nat,
{
    proof {
        reveal_strlit(">");
        assert(acc + Seq::<BodyItem>::empty() =~= acc);
    }
    let gt = lit(">");
    match detect_open_tag(s, pos, hi) {
        Some(TagName::Skill) => implementation_skill_step(s, offs, pos, hi, parts, Ghost(acc)),
        Some(TagName::Param) => {
            let (t, next) = match find_from(s, pos, hi, &gt) {
                Some(e) => (raw_text(s, pos, e + 1), e + 1),
                None => (raw_text(s, pos, hi), hi),
            };
            add_implementation_child(parts, t, next, Ghost(acc))
        },
        Some(tag) => {
            let (node, end) = parse_directive_tag(tag, s, offs, pos, hi)?;
            add_implementation_child(parts, node, end, Ghost(acc))
        },
        None => {
            let text_end = match find_next_impl_tag(s, pos, hi) {
                Some(i) => i,
                None => hi,
            };
            let (t, next) = if text_end > pos {
                (decoded_text(s, pos, text_end), text_end)
            } else {
                (raw_text(s, pos, pos + 1), pos + 1)
            };
            add_implementation_child(parts, t, next, Ghost(acc))
        },
    }
}

/// Add a child node to the parts of an interface body.
fn add_interface_child(parts: &mut ParsedInterfaceBody, n: Node, next: usize, Ghost(acc): Ghost<Seq<BodyItem>>) -> (r: Result<(usize, Ghost<Seq<BodyItem>>), ParseError>)
    requires
        interface_parts_hold(*old(parts), acc),
    ensures
        r matches Ok((k, xs)) && k == next && xs@ == seq![BodyItem::Child(n@)] && interface_parts_hold(*final(parts), acc + xs@),
{
    let ghost x = BodyItem::Child(n@);
    parts.children.push(n);
    proof {
        lemma_items_push(acc, x);
        assert(acc + seq![x] =~= acc.push(x));
        assert(Node::models(parts.children@) =~= Node::models(old(parts).children@).push(x->Child_0));
    }
    let g: Ghost<Seq<BodyItem>> = Ghost(Seq::empty().push(x));
    assert(g@ =~= seq![x]);
    Ok((next, g))
}

/// Add a child node to the parts of a contract body.
fn add_contract_child(parts: &mut ParsedContractBody, n: Node, next: usize, Ghost(acc): Ghost<Seq<BodyItem>>) -> (r: Result<(usize, Ghost<Seq<BodyItem>>), ParseError>)
    requires
        contract_parts_hold(*old(parts), acc),
    ensures
        r matches Ok((k, xs)) && k == next && xs@ == seq![BodyItem::Child(n@)] && contract_parts_hold(*final(parts), acc + xs@),
{
    let ghost x = BodyItem::Child(n@);
    parts.children.push(n);
    proof {
        lemma_items_push(acc, x);
        assert(acc + seq![x] =~= acc.push(x));
        assert(Node::models(parts.children@) =~= Node::models(old(parts).children@).push(x->Child_0));
    }
    let g: Ghost<Seq<BodyItem>> = Ghost(Seq::empty().push(x));
    assert(g@ =~= seq![x]);
    Ok((next, g))
}

/// Add a child node to the parts of an implementation body.
fn add_implementation_child(parts: &mut ParsedImplementationBody, n: Node, next: usize, Ghost(acc): Ghost<Seq<BodyItem>>) -> (r: Result<(usize, Ghost<Seq<BodyItem>>), ParseError>)
    requires
        implementation_parts_hold(*old(parts), acc),
    ensures
        r matches Ok((k, xs)) && k == next && xs@ == seq![BodyItem::Child(n@)] && implementation_parts_hold(*final(parts), acc + xs@),
{
    let ghost x = BodyItem::Child(n@);
    parts.children.push(n);
    proof {
        lemma_items_push(acc, x);
        assert(acc + seq![x] =~= acc.push(x));
        assert(Node::models(parts.children@) =~= Node::models(old(parts).children@).push(x->Child_0));
    }
    let g: Ghost<Seq<BodyItem>> = Ghost(Seq::empty().push(x));
    assert(g@ =~= seq![x]);
    Ok((next, g))
}

/// Parse a `<node name="..." type="...">` declaration inside an implementation body.
pub fn parse_node_decl(s: &[char], offs: &[usize], lo: usize, hi: usize) -> (r: Result<(NodeDecl, usize), ParseError>)
    requires
        region_ok(s@, offs@, lo as int, hi as int),
        opens_tag(s@, lo as int, hi as int, "node"@),
    ensures
        match r {
            Ok((d, end)) => lo < end <= hi && node_decl_of(s@, offs@, lo as int, hi as int) == Some((d@, end as int)),
            Err(x) => node_decl_of(s@, offs@, lo as int, hi as int) is None && span_is(x, decl_error_span(
                s@,
                offs@,
                lo as int,
                hi as int,
                "node"@,
            )) && x.message@ == node_decl_error(
                s@,
                lo as int,
                hi as int,
            ),
        },
{
    proof {
        reveal(node_decl_error);
    }
    proof {
        lemma_plain_names();
        reveal_strlit("node");
        reveal_strlit("</node>");
        assert(offs@[lo as int] <= offs@[hi as int] <= offs@[s@.len() as int]);
    }
    let name = lit("node");
    let (e, sc, attrs) = read_open_tag(s, offs, lo, hi, name.as_slice(), "unclosed <node> declaration tag")?;
    let nname = match get_attr(&attrs, "name") {
        Some(n) => n,
        None => {
            return Err(
                error(String::from_str("<node> declaration missing 'name' attribute"), offs[lo], offs[e + 1]),
            );
        },
    };
    let type_str = match get_attr(&attrs, "type") {
        Some(t) => t,
        None => {
            return Err(
                error(String::from_str("<node> declaration missing 'type' attribute"), offs[lo], offs[e + 1]),
            );
        },
    };
    let node_type = match NodeType::parse(type_str.as_str()) {
        Some(t) => t,
        None => {
            return Err(
                error(
                    join3("invalid node type '", type_str.as_str(), "' (expected 'tool' or 'prompt')"),
                    offs[lo],
                    offs[e + 1],
                ),
            );
        },
    };
    if sc {
        let end = e + 1;
        return Ok((
            NodeDecl { name: nname, node_type, tool_use: None, description: None, span: span_of(offs, lo, end) },
            end,
        ));
    }
    let cs = e + 1;
    let close = lit("</node>");
    let ce = match find_from(s, cs, hi, &close) {
        Some(c) => c,
        None => {
            return Err(error(String::from_str("unclosed <node> declaration tag"), offs[lo], offs[cs]));
        },
    };
    let (tool_use, description) = extract_node_body(s, offs, cs, ce);
    let end = ce + 7;
    Ok((NodeDecl { name: nname, node_type, tool_use, description, span: span_of(offs, lo, end) }, end))
}

/// The `<tool use="..."/>` of a node body, and the rest of its text (trimmed, then
/// entities decoded; `None` when empty).
pub fn extract_node_body(s: &[char], offs: &[usize], lo: usize, hi: usize) -> (r: (Option<String>, Option<String>))
    requires
        region_ok(s@, offs@, lo as int, hi as int),
    ensures
        (crate::ast::opt_view(r.0), crate::ast::opt_view(r.1)) == node_body_of(s@, lo as int, hi as int),
{
    proof {
        lemma_plain_names();
        reveal_strlit("tool");
        reveal_strlit("<");
    }
    let tool = lit("tool");
    let lt = lit("<");
    let mut tool_use: Option<String> = None;
    let mut text: Vec<char> = Vec::new();
    let mut pos = lo;
    while pos < hi
        invariant
            region_ok(s@, offs@, lo as int, hi as int),
            lo <= pos <= hi,
            tool@ == "tool"@,
            lt@ == "<"@,
            lt@.len() == 1,
            crate::parser::plain_name("tool"@),
            "tool"@.len() == 4,
            (if node_body_scan(s@, pos as int, hi as int).0 is Some {
                node_body_scan(s@, pos as int, hi as int).0
            } else {
                crate::ast::opt_view(tool_use)
            }) == node_body_scan(s@, lo as int, hi as int).0,
            text@ + node_body_scan(s@, pos as int, hi as int).1 == node_body_scan(s@, lo as int, hi as int).1,
        decreases hi - pos,
    {
        if opens_named(s, pos, hi, tool.as_slice()) {
            match find_tag_end(s, pos, hi) {
                Some(e) => {
                    if s[e - 1] == '/' {
                        proof {
                            lemma_self_closing_past_name(s@, pos as int, hi as int, "tool"@, e as int);
                        }
                        match parse_attributes(s, pos + 5, e - 1, offs) {
                            Ok(attrs) => {
                                match get_attr(&attrs, "use") {
                                    Some(u) => {
                                        tool_use = Some(u);
                                    },
                                    None => {},
                                }
                            },
                            Err(_) => {},
                        }
                        pos = e + 1;
                        continue;
                    }
                },
                None => {},
            }
        }
        let next = match find_from(s, pos, hi, &lt) {
            Some(i) => i,
            None => hi,
        };
        if next > pos {
            push_chars(&mut text, s, pos, next);
            pos = next;
        } else {
            push_chars(&mut text, s, pos, pos + 1);
            pos = pos + 1;
        }
    }
    assert(text@ =~= node_body_scan(s@, lo as int, hi as int).1);
    let (x, y) = trim_bounds(text.as_slice(), 0, text.len());
    assert(text@.subrange(0, text@.len() as int) =~= text@);
    if x == y {
        (tool_use, None)
    } else {
        let v = decode_entities(text.as_slice(), x, y);
        assert(v@.subrange(0, v@.len() as int) =~= v@);
        (tool_use, Some(string_of(v.as_slice(), 0, v.len())))
    }
}

} // verus!
