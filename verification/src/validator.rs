//! Semantic validation of a parsed AML tree: definitions, typed declarations, directives
//! and the tool constraints inherited down nested `<tool>` directives.
use vstd::prelude::*;

use crate::ast::{
    opt_view, DirectiveKind, FieldDecl, IoDecl, Node, NodeDecl, NodeKind, NodeType, ParamDecl,
    ReturnDecl, SkillRef, Span, SpecDirectiveKind, SpecFieldDecl, SpecIoDecl, SpecNode,
    SpecNodeDecl, SpecNodeKind, SpecParamDecl, SpecReturnDecl, SpecSkillRef, SpecToolConstraint,
    Str, ToolConstraint, ToolDirective,
};
use crate::attrs::{bare_text, BARE_ATTR_SENTINEL};
use crate::constraints::{spec_apply, SpecConstraints, ToolConstraints};
use crate::numbers::{is_float_text, is_valid_number};
use crate::text::{chars_of, join3, split_on, split_trim_of, str_eq, strings_view, trim};

verus! {

/// Error severity: errors prevent execution, warnings are advisory.
#[derive(Debug, Clone, Copy, PartialEq, Eq, Structural)]
pub enum Severity {
    Error,
    Warning,
}

/// Validation error with source span.
#[derive(Debug, Clone, PartialEq, Eq)]
pub struct ValidationError {
    pub message: String,
    pub span: Option<Span>,
    pub severity: Severity,
}

pub struct SpecValidationError {
    pub message: Str,
    pub span: Option<Span>,
    pub severity: Severity,
}

impl View for ValidationError {
    type V = SpecValidationError;

    open spec fn view(&self) -> SpecValidationError {
        SpecValidationError { message: self.message@, span: self.span, severity: self.severity }
    }
}

/// The model of a list of validation errors.
pub open spec fn errs_view(v: Seq<ValidationError>) -> Seq<SpecValidationError> {
    v.map_values(|e: ValidationError| e@)
}

pub open spec fn err(message: Str, span: Span) -> SpecValidationError {
    SpecValidationError { message, span: Some(span), severity: Severity::Error }
}

pub open spec fn warn(message: Str, span: Span) -> SpecValidationError {
    SpecValidationError { message, span: Some(span), severity: Severity::Warning }
}

/// `e` when `b` holds, nothing otherwise.
pub open spec fn when(b: bool, e: SpecValidationError) -> Seq<SpecValidationError> {
    if b {
        seq![e]
    } else {
        Seq::empty()
    }
}

// ---------------------------------------------------------------------------
// Declared types
// ---------------------------------------------------------------------------

/// `contract:<name>` with a non-empty name.
pub open spec fn names_contract(v: Str) -> bool {
    v.len() > 9 && v.take(9) == "contract:"@
}

pub open spec fn basic_decl_type(v: Str) -> bool {
    v == "string"@ || v == "enum"@ || v == "number"@ || v == "boolean"@ || v == "path"@ || v == "list"@
}

pub open spec fn valid_decl_type(v: Str) -> bool {
    basic_decl_type(v) || names_contract(v)
}

pub open spec fn valid_field_type(v: Str) -> bool {
    valid_decl_type(v) || v == "object"@ || v == "list"@
}

pub open spec fn scalar_field_type(v: Str) -> bool {
    v == "string"@ || v == "enum"@ || v == "number"@ || v == "boolean"@ || v == "path"@
        || names_contract(v)
}

/// The first attribute (in the listed order) written bare.
pub open spec fn bare_attribute(a: Seq<(Str, Option<Str>)>) -> Option<Str>
    decreases a.len(),
{
    if a.len() == 0 {
        None
    } else if a[0].1 == Some(bare_text()) {
        Some(a[0].0)
    } else {
        bare_attribute(a.drop_first())
    }
}

/// Holds a value other than the bare-attribute marker.
pub open spec fn has_real_value(o: Option<Str>) -> bool {
    o is Some && o.unwrap() != bare_text()
}

/// The `|`-separated entries of an enum's `values`, trimmed.
pub open spec fn enum_entries(v: Str) -> Seq<Str> {
    split_on(v, '|').map_values(|p: Seq<char>| trim(p))
}

pub open spec fn quoted(a: Seq<char>, b: Seq<char>, c: Seq<char>) -> Seq<char> {
    a + b + c
}

pub open spec fn m_bare(subject: Str, attr: Str) -> Str {
    subject + " uses bare attribute syntax for '"@ + attr + "' (only 'required' may be bare)"@
}

// ---------------------------------------------------------------------------
// Interface declarations
// ---------------------------------------------------------------------------

/// Duplicate and empty parameter names.
pub open spec fn param_name_errors(p: SpecParamDecl, seen: Seq<Str>) -> Seq<SpecValidationError> {
    when(seen.contains(p.name), err(quoted("duplicate param name '"@, p.name, "' in interface definition"@), p.span))
    + when(p.name.len() == 0, err("param declaration must have a non-empty name"@, p.span))
}

/// Bare attributes and unknown types of a parameter.
pub open spec fn param_type_errors(p: SpecParamDecl) -> Seq<SpecValidationError> {
    let bare = bare_attribute(seq![("type"@, p.param_type), ("default"@, p.default), ("values"@, p.values)]);
    when(bare is Some, err(m_bare(quoted("param '"@, p.name, "'"@), bare.unwrap()), p.span))
    + when(
        has_real_value(p.param_type) && !valid_decl_type(p.param_type.unwrap()),
        err(
            quoted(
                "invalid param type '"@,
                p.param_type.unwrap(),
                "' (expected one of: string, enum, number, boolean, path, list, contract:<name>)"@,
            ),
            p.span,
        ),
    )
}

/// The `values` of a parameter against its type.
pub open spec fn param_values_errors(p: SpecParamDecl) -> Seq<SpecValidationError> {
    let is_enum = p.param_type == Some("enum"@);
    when(is_enum && p.values is None, err(quoted("param '"@, p.name, "' has type 'enum' but no 'values' attribute"@), p.span))
    + when(!is_enum && has_real_value(p.values), err(quoted("param '"@, p.name, "' has 'values' attribute but type is not 'enum'"@), p.span))
    + when(
        has_real_value(p.values) && enum_entries(p.values.unwrap()).contains(Seq::<char>::empty()),
        warn(quoted("param '"@, p.name, "' has empty entries in 'values'"@), p.span),
    )
}

/// A parameter's default against `required` and `values`.
pub open spec fn param_default_errors(p: SpecParamDecl) -> Seq<SpecValidationError> {
    when(
        p.required == Some(true) && has_real_value(p.default),
        warn(quoted("param '"@, p.name, "' is required but has a default value"@), p.span),
    )
    + when(
        has_real_value(p.default) && has_real_value(p.values) && !enum_entries(p.values.unwrap()).contains(p.default.unwrap()),
        err(
            quoted("param '"@, p.name, "' default '"@) + p.default.unwrap() + "' is not one of the allowed values: "@
                + p.values.unwrap(),
            p.span,
        ),
    )
}

/// A parameter's default against a `boolean` or `number` type.
pub open spec fn param_default_type_errors(p: SpecParamDecl) -> Seq<SpecValidationError> {
    when(
        p.param_type == Some("boolean"@) && has_real_value(p.default) && p.default.unwrap() != "true"@
            && p.default.unwrap() != "false"@,
        err(
            quoted("param '"@, p.name, "' has type 'boolean' but default '"@) + p.default.unwrap()
                + "' is not 'true' or 'false'"@,
            p.span,
        ),
    )
    + when(
        p.param_type == Some("number"@) && has_real_value(p.default) && !is_float_text(p.default.unwrap()),
        err(
            quoted("param '"@, p.name, "' has type 'number' but default '"@) + p.default.unwrap()
                + "' is not a valid number"@,
            p.span,
        ),
    )
}

/// The checks of one `<param>` declaration, in order; `seen` are the names of the earlier ones.
pub open spec fn param_errors(p: SpecParamDecl, seen: Seq<Str>) -> Seq<SpecValidationError> {
    param_name_errors(p, seen) + param_type_errors(p) + param_values_errors(p) + param_default_errors(p)
        + param_default_type_errors(p)
}

pub open spec fn param_names(ps: Seq<SpecParamDecl>) -> Seq<Str> {
    ps.map_values(|p: SpecParamDecl| p.name)
}

/// The checks of all `<param>` declarations, in order.
pub open spec fn params_errors(ps: Seq<SpecParamDecl>) -> Seq<SpecValidationError>
    decreases ps.len(),
{
    if ps.len() == 0 {
        Seq::empty()
    } else {
        params_errors(ps.drop_last()) + param_errors(ps.last(), param_names(ps.drop_last()))
    }
}

/// The message of the check that reports a parameter named `name` as a duplicate.
pub open spec fn duplicate_param_message(name: Str) -> Str {
    quoted("duplicate param name '"@, name, "' in interface definition"@)
}

/// `e` reports a parameter name as a duplicate.
pub open spec fn is_duplicate_param_error(e: SpecValidationError) -> bool {
    exists|n: Str| e.message == #[trigger] duplicate_param_message(n)
}

/// One duplicate-name error for each parameter whose name an earlier parameter has, in
/// order, each at the span of that parameter.
pub open spec fn repeated_param_errors(ps: Seq<SpecParamDecl>) -> Seq<SpecValidationError>
    decreases ps.len(),
{
    if ps.len() == 0 {
        Seq::empty()
    } else {
        repeated_param_errors(ps.drop_last()) + when(
            param_names(ps.drop_last()).contains(ps.last().name),
            err(duplicate_param_message(ps.last().name), ps.last().span),
        )
    }
}

/// The duplicate-name errors among `es`, in order.
pub open spec fn duplicate_param_errors(es: Seq<SpecValidationError>) -> Seq<SpecValidationError> {
    es.filter(|e: SpecValidationError| is_duplicate_param_error(e))
}

/// A message that starts otherwise than a duplicate-name message is none.
proof fn lemma_not_duplicate(e: SpecValidationError)
    requires
        e.message.len() > 0,
        e.message[0] != 'd',
    ensures
        !is_duplicate_param_error(e),
{
    reveal_strlit("duplicate param name '");
    if is_duplicate_param_error(e) {
        let n = choose|n: Str| e.message == #[trigger] duplicate_param_message(n);
        assert(duplicate_param_message(n)[0] == 'd');
    }
}

proof fn lemma_when_duplicates(b: bool, e: SpecValidationError)
    ensures
        duplicate_param_errors(when(b, e)) == if b && is_duplicate_param_error(e) {
            seq![e]
        } else {
            Seq::<SpecValidationError>::empty()
        },
{
    reveal_with_fuel(Seq::filter, 2);
    if b {
        assert(when(b, e).drop_last() =~= Seq::<SpecValidationError>::empty());
    }
}

proof fn lemma_add_duplicates(x: Seq<SpecValidationError>, y: Seq<SpecValidationError>)
    ensures
        duplicate_param_errors(x + y) == duplicate_param_errors(x) + duplicate_param_errors(y),
{
    Seq::filter_distributes_over_add(x, y, |e: SpecValidationError| is_duplicate_param_error(e));
}

/// `when(b, e)` holds no duplicate-name error when `e`'s message starts otherwise.
proof fn lemma_when_no_duplicate(b: bool, e: SpecValidationError)
    requires
        e.message.len() > 0,
        e.message[0] != 'd',
    ensures
        duplicate_param_errors(when(b, e)) == Seq::<SpecValidationError>::empty(),
{
    lemma_not_duplicate(e);
    lemma_when_duplicates(b, e);
}

proof fn lemma_param_parts_no_duplicates(p: SpecParamDecl)
    ensures
        duplicate_param_errors(param_type_errors(p)) == Seq::<SpecValidationError>::empty(),
        duplicate_param_errors(param_values_errors(p)) == Seq::<SpecValidationError>::empty(),
        duplicate_param_errors(param_default_errors(p)) == Seq::<SpecValidationError>::empty(),
        duplicate_param_errors(param_default_type_errors(p)) == Seq::<SpecValidationError>::empty(),
{
    reveal_strlit("param '");
    reveal_strlit("invalid param type '");
    let e = Seq::<SpecValidationError>::empty();
    let bare = bare_attribute(seq![("type"@, p.param_type), ("default"@, p.default), ("values"@, p.values)]);
    let w1 = when(bare is Some, err(m_bare(quoted("param '"@, p.name, "'"@), bare.unwrap()), p.span));
    let w2 = when(
        has_real_value(p.param_type) && !valid_decl_type(p.param_type.unwrap()),
        err(
            quoted(
                "invalid param type '"@,
                p.param_type.unwrap(),
                "' (expected one of: string, enum, number, boolean, path, list, contract:<name>)"@,
            ),
            p.span,
        ),
    );
    lemma_when_no_duplicate(bare is Some, err(m_bare(quoted("param '"@, p.name, "'"@), bare.unwrap()), p.span));
    lemma_when_no_duplicate(
        has_real_value(p.param_type) && !valid_decl_type(p.param_type.unwrap()),
        err(
            quoted(
                "invalid param type '"@,
                p.param_type.unwrap(),
                "' (expected one of: string, enum, number, boolean, path, list, contract:<name>)"@,
            ),
            p.span,
        ),
    );
    lemma_add_duplicates(w1, w2);
    assert(e + e =~= e);
    let is_enum = p.param_type == Some("enum"@);
    let v1 = when(is_enum && p.values is None, err(quoted("param '"@, p.name, "' has type 'enum' but no 'values' attribute"@), p.span));
    let v2 = when(!is_enum && has_real_value(p.values), err(quoted("param '"@, p.name, "' has 'values' attribute but type is not 'enum'"@), p.span));
    let v3 = when(
        has_real_value(p.values) && enum_entries(p.values.unwrap()).contains(Seq::<char>::empty()),
        warn(quoted("param '"@, p.name, "' has empty entries in 'values'"@), p.span),
    );
    lemma_when_no_duplicate(is_enum && p.values is None, err(quoted("param '"@, p.name, "' has type 'enum' but no 'values' attribute"@), p.span));
    lemma_when_no_duplicate(!is_enum && has_real_value(p.values), err(quoted("param '"@, p.name, "' has 'values' attribute but type is not 'enum'"@), p.span));
    lemma_when_no_duplicate(
        has_real_value(p.values) && enum_entries(p.values.unwrap()).contains(Seq::<char>::empty()),
        warn(quoted("param '"@, p.name, "' has empty entries in 'values'"@), p.span),
    );
    lemma_add_duplicates(v1, v2);
    lemma_add_duplicates(v1 + v2, v3);
    let d1 = when(
        p.required == Some(true) && has_real_value(p.default),
        warn(quoted("param '"@, p.name, "' is required but has a default value"@), p.span),
    );
    let d2 = when(
        has_real_value(p.default) && has_real_value(p.values) && !enum_entries(p.values.unwrap()).contains(p.default.unwrap()),
        err(
            quoted("param '"@, p.name, "' default '"@) + p.default.unwrap() + "' is not one of the allowed values: "@
                + p.values.unwrap(),
            p.span,
        ),
    );
    lemma_when_no_duplicate(
        p.required == Some(true) && has_real_value(p.default),
        warn(quoted("param '"@, p.name, "' is required but has a default value"@), p.span),
    );
    lemma_when_no_duplicate(
        has_real_value(p.default) && has_real_value(p.values) && !enum_entries(p.values.unwrap()).contains(p.default.unwrap()),
        err(
            quoted("param '"@, p.name, "' default '"@) + p.default.unwrap() + "' is not one of the allowed values: "@
                + p.values.unwrap(),
            p.span,
        ),
    );
    lemma_add_duplicates(d1, d2);
    let t1 = when(
        p.param_type == Some("boolean"@) && has_real_value(p.default) && p.default.unwrap() != "true"@
            && p.default.unwrap() != "false"@,
        err(
            quoted("param '"@, p.name, "' has type 'boolean' but default '"@) + p.default.unwrap()
                + "' is not 'true' or 'false'"@,
            p.span,
        ),
    );
    let t2 = when(
        p.param_type == Some("number"@) && has_real_value(p.default) && !is_float_text(p.default.unwrap()),
        err(
            quoted("param '"@, p.name, "' has type 'number' but default '"@) + p.default.unwrap()
                + "' is not a valid number"@,
            p.span,
        ),
    );
    lemma_when_no_duplicate(
        p.param_type == Some("boolean"@) && has_real_value(p.default) && p.default.unwrap() != "true"@
            && p.default.unwrap() != "false"@,
        err(
            quoted("param '"@, p.name, "' has type 'boolean' but default '"@) + p.default.unwrap()
                + "' is not 'true' or 'false'"@,
            p.span,
        ),
    );
    lemma_when_no_duplicate(
        p.param_type == Some("number"@) && has_real_value(p.default) && !is_float_text(p.default.unwrap()),
        err(
            quoted("param '"@, p.name, "' has type 'number' but default '"@) + p.default.unwrap()
                + "' is not a valid number"@,
            p.span,
        ),
    );
    lemma_add_duplicates(t1, t2);
}

/// The checks of one parameter hold a duplicate-name error exactly when an earlier
/// parameter has its name.
proof fn lemma_param_errors_duplicates(p: SpecParamDecl, seen: Seq<Str>)
    ensures
        duplicate_param_errors(param_errors(p, seen)) == when(seen.contains(p.name), err(duplicate_param_message(p.name), p.span)),
{
    reveal_strlit("param declaration must have a non-empty name");
    let e = Seq::<SpecValidationError>::empty();
    let d = when(seen.contains(p.name), err(duplicate_param_message(p.name), p.span));
    let n = when(p.name.len() == 0, err("param declaration must have a non-empty name"@, p.span));
    lemma_when_duplicates(seen.contains(p.name), err(duplicate_param_message(p.name), p.span));
    assert(is_duplicate_param_error(err(duplicate_param_message(p.name), p.span)));
    lemma_when_no_duplicate(p.name.len() == 0, err("param declaration must have a non-empty name"@, p.span));
    lemma_param_parts_no_duplicates(p);
    lemma_add_duplicates(d, n);
    lemma_add_duplicates(d + n, param_type_errors(p));
    lemma_add_duplicates(d + n + param_type_errors(p), param_values_errors(p));
    lemma_add_duplicates(d + n + param_type_errors(p) + param_values_errors(p), param_default_errors(p));
    lemma_add_duplicates(
        d + n + param_type_errors(p) + param_values_errors(p) + param_default_errors(p),
        param_default_type_errors(p),
    );
    assert(d + e =~= d);
}

proof fn lemma_repeated_param_errors_len(ps: Seq<SpecParamDecl>)
    ensures
        repeated_param_errors(ps).len() + param_names(ps).to_set().len() == ps.len(),
    decreases ps.len(),
{
    if ps.len() == 0 {
        assert(param_names(ps).to_set() =~= Set::<Str>::empty());
    } else {
        let d = ps.drop_last();
        let p = ps.last();
        lemma_repeated_param_errors_len(d);
        assert(param_names(ps) =~= param_names(d) + seq![p.name]);
        Seq::lemma_to_set_insert_commutes(param_names(d), p.name);
        vstd::seq_lib::seq_to_set_is_finite(param_names(d));
        if param_names(d).contains(p.name) {
            assert(param_names(d).to_set().insert(p.name) =~= param_names(d).to_set());
        } else {
            assert(!param_names(d).to_set().contains(p.name));
        }
    }
}

/// Each parameter is checked against the names before it: the duplicate-name errors among
/// the parameter checks are exactly one for each parameter whose name an earlier one has,
/// in order and at its own span (the first of a name is never reported), so there are as
/// many as parameters less distinct names.
pub proof fn law_each_repeated_param_is_reported_once(ps: Seq<SpecParamDecl>)
    ensures
        duplicate_param_errors(params_errors(ps)) == repeated_param_errors(ps),
        repeated_param_errors(ps).len() + param_names(ps).to_set().len() == ps.len(),
    decreases ps.len(),
{
    lemma_repeated_param_errors_len(ps);
    if ps.len() == 0 {
        reveal(Seq::filter);
    } else {
        let d = ps.drop_last();
        let p = ps.last();
        law_each_repeated_param_is_reported_once(d);
        lemma_param_errors_duplicates(p, param_names(d));
        lemma_add_duplicates(params_errors(d), param_errors(p, param_names(d)));
    }
}

/// The checks of one `<returns>` declaration; `seen` are the names of the earlier ones.
pub open spec fn return_errors(r: SpecReturnDecl, seen: Seq<Str>) -> Seq<SpecValidationError> {
    let name = r.name;
    let sp = r.span;
    let is_enum = r.return_type == Some("enum"@);
    let bare = bare_attribute(seq![("type"@, r.return_type), ("values"@, r.values)]);
    when(seen.contains(name), err(quoted("duplicate returns name '"@, name, "' in interface definition"@), sp))
    + when(name.len() == 0, err("returns declaration must have a non-empty name"@, sp))
    + when(bare is Some, err(m_bare(quoted("returns '"@, name, "'"@), bare.unwrap()), sp))
    + when(
        has_real_value(r.return_type) && !valid_decl_type(r.return_type.unwrap()),
        err(
            quoted(
                "invalid returns type '"@,
                r.return_type.unwrap(),
                "' (expected one of: string, enum, number, boolean, path, list, contract:<name>)"@,
            ),
            sp,
        ),
    )
    + when(is_enum && r.values is None, err(quoted("returns '"@, name, "' has type 'enum' but no 'values' attribute"@), sp))
    + when(!is_enum && has_real_value(r.values), err(quoted("returns '"@, name, "' has 'values' attribute but type is not 'enum'"@), sp))
}

pub open spec fn return_names(rs: Seq<SpecReturnDecl>) -> Seq<Str> {
    rs.map_values(|r: SpecReturnDecl| r.name)
}

pub open spec fn returns_errors(rs: Seq<SpecReturnDecl>) -> Seq<SpecValidationError>
    decreases rs.len(),
{
    if rs.len() == 0 {
        Seq::empty()
    } else {
        returns_errors(rs.drop_last()) + return_errors(rs.last(), return_names(rs.drop_last()))
    }
}

pub open spec fn io_errors(io: Option<SpecIoDecl>, what: Str) -> Seq<SpecValidationError> {
    match io {
        Some(d) => when(d.patterns.len() == 0, warn(what + " declaration has no patterns"@ + ""@, d.span)),
        None => Seq::empty(),
    }
}

/// The checks of an interface's typed declarations.
pub open spec fn interface_declaration_errors(
    params: Seq<SpecParamDecl>,
    rets: Seq<SpecReturnDecl>,
    reads: Option<SpecIoDecl>,
    writes: Option<SpecIoDecl>,
) -> Seq<SpecValidationError> {
    params_errors(params) + returns_errors(rets) + io_errors(reads, "reads"@) + io_errors(writes, "writes"@)
}

pub open spec fn skill_ref_errors(srs: Seq<SpecSkillRef>) -> Seq<SpecValidationError>
    decreases srs.len(),
{
    if srs.len() == 0 {
        Seq::empty()
    } else {
        skill_ref_errors(srs.drop_last()) + when(
            srs.last().ref_name.len() == 0,
            err("skill ref must have a non-empty name"@, srs.last().span),
        )
    }
}

pub open spec fn tool_constraint_errors(tcs: Seq<SpecToolConstraint>) -> Seq<SpecValidationError>
    decreases tcs.len(),
{
    if tcs.len() == 0 {
        Seq::empty()
    } else {
        let tc = tcs.last();
        tool_constraint_errors(tcs.drop_last()) + when(
            tc.allow.len() > 0 && tc.deny.len() > 0,
            err("<tool> in interface cannot have both 'allow' and 'deny'"@, tc.span),
        ) + when(
            tc.allow.len() == 0 && tc.deny.len() == 0,
            err("<tool> in interface must have 'allow' or 'deny'"@, tc.span),
        )
    }
}

/// The checks of one `<node>` declaration; `seen` are the names of the earlier ones.
pub open spec fn node_decl_errors(n: SpecNodeDecl, seen: Seq<Str>) -> Seq<SpecValidationError> {
    when(n.name.len() == 0, err("node declaration must have a non-empty name"@, n.span))
    + when(seen.contains(n.name), err(quoted("duplicate node name '"@, n.name, "' in implementation"@), n.span))
    + when(
        n.node_type == NodeType::Tool && n.tool_use is None,
        warn(quoted("node '"@, n.name, "' has type 'tool' but no <tool use=\"...\"/> declaration"@), n.span),
    )
    + when(
        n.node_type == NodeType::Prompt && n.tool_use is Some,
        warn(quoted("node '"@, n.name, "' has type 'prompt' but declares <tool use=\"...\"/>"@), n.span),
    )
}

pub open spec fn node_names(ns: Seq<SpecNodeDecl>) -> Seq<Str> {
    ns.map_values(|n: SpecNodeDecl| n.name)
}

pub open spec fn node_decls_errors(ns: Seq<SpecNodeDecl>) -> Seq<SpecValidationError>
    decreases ns.len(),
{
    if ns.len() == 0 {
        Seq::empty()
    } else {
        node_decls_errors(ns.drop_last()) + node_decl_errors(ns.last(), node_names(ns.drop_last()))
    }
}


// ---------------------------------------------------------------------------
// Contracts
// ---------------------------------------------------------------------------

/// Empty and duplicate field names.
pub open spec fn field_name_errors(f: SpecFieldDecl, seen: Seq<Str>) -> Seq<SpecValidationError> {
    when(f.name.len() == 0, err("field declaration must have a non-empty name"@, f.span))
    + when(seen.contains(f.name), err(quoted("duplicate field name '"@, f.name, "' in contract definition"@), f.span))
}

/// Bare attributes, unknown or scalar types with children, and enums without values.
pub open spec fn field_type_errors(f: SpecFieldDecl) -> Seq<SpecValidationError> {
    let bare = bare_attribute(seq![("type"@, f.field_type), ("default"@, f.default), ("values"@, f.values)]);
    when(bare is Some, err(m_bare(quoted("field '"@, f.name, "'"@), bare.unwrap()), f.span))
    + when(
        has_real_value(f.field_type) && !valid_field_type(f.field_type.unwrap()),
        err(
            quoted(
                "invalid field type '"@,
                f.field_type.unwrap(),
                "' (expected one of: string, enum, number, boolean, path, list, object, contract:<name>)"@,
            ),
            f.span,
        ),
    )
    + when(
        f.field_type is Some && scalar_field_type(f.field_type.unwrap()) && f.children.len() > 0,
        err(quoted("field '"@, f.name, "' has children but type '"@) + f.field_type.unwrap() + "' is scalar"@, f.span),
    )
    + when(
        f.field_type == Some("enum"@) && f.values is None,
        err(quoted("field '"@, f.name, "' has type 'enum' but no 'values' attribute"@), f.span),
    )
}

/// The checks of one `<field>` and, after them, of its nested fields; `seen` are the
/// names of the earlier sibling fields.
pub open spec fn field_errors(f: SpecFieldDecl, seen: Seq<Str>) -> Seq<SpecValidationError>
    decreases f, 1nat,
{
    field_name_errors(f, seen) + field_type_errors(f) + fields_errors(f.children)
}

pub open spec fn field_names(fs: Seq<SpecFieldDecl>) -> Seq<Str> {
    fs.map_values(|f: SpecFieldDecl| f.name)
}

/// The checks of a list of sibling fields, in order.
pub open spec fn fields_errors(fs: Seq<SpecFieldDecl>) -> Seq<SpecValidationError>
    decreases fs, 0nat,
{
    if fs.len() == 0 {
        Seq::empty()
    } else {
        fields_errors(fs.drop_last()) + field_errors(fs.last(), field_names(fs.drop_last()))
    }
}

/// The message of the check that reports a field named `name` as a duplicate.
pub open spec fn duplicate_field_message(name: Str) -> Str {
    quoted("duplicate field name '"@, name, "' in contract definition"@)
}

/// `e` reports a field name as a duplicate.
pub open spec fn is_duplicate_field_error(e: SpecValidationError) -> bool {
    exists|n: Str| e.message == #[trigger] duplicate_field_message(n)
}

/// The duplicate-field-name errors among `es`, in order.
pub open spec fn duplicate_field_errors(es: Seq<SpecValidationError>) -> Seq<SpecValidationError> {
    es.filter(|e: SpecValidationError| is_duplicate_field_error(e))
}

/// One duplicate-name error for each field whose name an earlier sibling has, in order,
/// each at the span of that field, each followed by those among its nested fields.
pub open spec fn repeated_field_errors(fs: Seq<SpecFieldDecl>) -> Seq<SpecValidationError>
    decreases fs, 0nat,
{
    if fs.len() == 0 {
        Seq::empty()
    } else {
        repeated_field_errors(fs.drop_last()) + field_repeats(fs.last(), field_names(fs.drop_last()))
    }
}

/// The duplicate-name error of the field `f` where `seen` holds its name, then those of
/// its nested fields.
pub open spec fn field_repeats(f: SpecFieldDecl, seen: Seq<Str>) -> Seq<SpecValidationError>
    decreases f, 1nat,
{
    when(seen.contains(f.name), err(duplicate_field_message(f.name), f.span)) + repeated_field_errors(f.children)
}

proof fn lemma_not_duplicate_field(e: SpecValidationError)
    requires
        e.message.len() > 0,
        e.message[0] != 'd',
    ensures
        !is_duplicate_field_error(e),
{
    reveal_strlit("duplicate field name '");
    if is_duplicate_field_error(e) {
        let n = choose|n: Str| e.message == #[trigger] duplicate_field_message(n);
        assert(duplicate_field_message(n)[0] == 'd');
    }
}

proof fn lemma_when_field_duplicates(b: bool, e: SpecValidationError)
    ensures
        duplicate_field_errors(when(b, e)) == if b && is_duplicate_field_error(e) {
            seq![e]
        } else {
            Seq::<SpecValidationError>::empty()
        },
{
    reveal_with_fuel(Seq::filter, 2);
    if b {
        assert(when(b, e).drop_last() =~= Seq::<SpecValidationError>::empty());
    }
}

proof fn lemma_add_field_duplicates(x: Seq<SpecValidationError>, y: Seq<SpecValidationError>)
    ensures
        duplicate_field_errors(x + y) == duplicate_field_errors(x) + duplicate_field_errors(y),
{
    Seq::filter_distributes_over_add(x, y, |e: SpecValidationError| is_duplicate_field_error(e));
}

proof fn lemma_when_no_field_duplicate(b: bool, e: SpecValidationError)
    requires
        e.message.len() > 0,
        e.message[0] != 'd',
    ensures
        duplicate_field_errors(when(b, e)) == Seq::<SpecValidationError>::empty(),
{
    lemma_not_duplicate_field(e);
    lemma_when_field_duplicates(b, e);
}

proof fn lemma_field_type_no_duplicates(f: SpecFieldDecl)
    ensures
        duplicate_field_errors(field_type_errors(f)) == Seq::<SpecValidationError>::empty(),
{
    reveal_strlit("field '");
    reveal_strlit("invalid field type '");
    let e = Seq::<SpecValidationError>::empty();
    let bare = bare_attribute(seq![("type"@, f.field_type), ("default"@, f.default), ("values"@, f.values)]);
    let w1 = when(bare is Some, err(m_bare(quoted("field '"@, f.name, "'"@), bare.unwrap()), f.span));
    let w2 = when(
        has_real_value(f.field_type) && !valid_field_type(f.field_type.unwrap()),
        err(
            quoted(
                "invalid field type '"@,
                f.field_type.unwrap(),
                "' (expected one of: string, enum, number, boolean, path, list, object, contract:<name>)"@,
            ),
            f.span,
        ),
    );
    let w3 = when(
        f.field_type is Some && scalar_field_type(f.field_type.unwrap()) && f.children.len() > 0,
        err(quoted("field '"@, f.name, "' has children but type '"@) + f.field_type.unwrap() + "' is scalar"@, f.span),
    );
    let w4 = when(
        f.field_type == Some("enum"@) && f.values is None,
        err(quoted("field '"@, f.name, "' has type 'enum' but no 'values' attribute"@), f.span),
    );
    lemma_when_no_field_duplicate(bare is Some, err(m_bare(quoted("field '"@, f.name, "'"@), bare.unwrap()), f.span));
    lemma_when_no_field_duplicate(
        has_real_value(f.field_type) && !valid_field_type(f.field_type.unwrap()),
        err(
            quoted(
                "invalid field type '"@,
                f.field_type.unwrap(),
                "' (expected one of: string, enum, number, boolean, path, list, object, contract:<name>)"@,
            ),
            f.span,
        ),
    );
    lemma_when_no_field_duplicate(
        f.field_type is Some && scalar_field_type(f.field_type.unwrap()) && f.children.len() > 0,
        err(quoted("field '"@, f.name, "' has children but type '"@) + f.field_type.unwrap() + "' is scalar"@, f.span),
    );
    lemma_when_no_field_duplicate(
        f.field_type == Some("enum"@) && f.values is None,
        err(quoted("field '"@, f.name, "' has type 'enum' but no 'values' attribute"@), f.span),
    );
    lemma_add_field_duplicates(w1, w2);
    lemma_add_field_duplicates(w1 + w2, w3);
    lemma_add_field_duplicates(w1 + w2 + w3, w4);
    assert(e + e =~= e);
}

proof fn lemma_field_duplicates(f: SpecFieldDecl, seen: Seq<Str>)
    ensures
        duplicate_field_errors(field_errors(f, seen)) == field_repeats(f, seen),
    decreases f, 1nat,
{
    reveal_strlit("field declaration must have a non-empty name");
    let e = Seq::<SpecValidationError>::empty();
    let n = when(f.name.len() == 0, err("field declaration must have a non-empty name"@, f.span));
    let d = when(seen.contains(f.name), err(duplicate_field_message(f.name), f.span));
    lemma_when_no_field_duplicate(f.name.len() == 0, err("field declaration must have a non-empty name"@, f.span));
    lemma_when_field_duplicates(seen.contains(f.name), err(duplicate_field_message(f.name), f.span));
    assert(is_duplicate_field_error(err(duplicate_field_message(f.name), f.span)));
    lemma_field_type_no_duplicates(f);
    lemma_fields_duplicates(f.children);
    lemma_add_field_duplicates(n, d);
    lemma_add_field_duplicates(n + d, field_type_errors(f));
    lemma_add_field_duplicates(n + d + field_type_errors(f), fields_errors(f.children));
    assert(field_errors(f, seen) == n + d + field_type_errors(f) + fields_errors(f.children));
    assert(e + duplicate_field_errors(d) =~= duplicate_field_errors(d));
    assert(duplicate_field_errors(d) + e =~= duplicate_field_errors(d));
}

proof fn lemma_fields_duplicates(fs: Seq<SpecFieldDecl>)
    ensures
        duplicate_field_errors(fields_errors(fs)) == repeated_field_errors(fs),
    decreases fs, 0nat,
{
    if fs.len() == 0 {
        reveal(Seq::filter);
    } else {
        let d = fs.drop_last();
        assert(decreases_to!(fs => d));
        lemma_fields_duplicates(d);
        lemma_field_duplicates(fs.last(), field_names(d));
        lemma_add_field_duplicates(fields_errors(d), field_errors(fs.last(), field_names(d)));
    }
}

proof fn lemma_flat_repeated_fields_len(fs: Seq<SpecFieldDecl>)
    requires
        forall|i: int| 0 <= i < fs.len() ==> (#[trigger] fs[i]).children.len() == 0,
    ensures
        repeated_field_errors(fs).len() + field_names(fs).to_set().len() == fs.len(),
    decreases fs.len(),
{
    if fs.len() == 0 {
        assert(field_names(fs).to_set() =~= Set::<Str>::empty());
    } else {
        let d = fs.drop_last();
        let f = fs.last();
        assert forall|i: int| 0 <= i < d.len() implies (#[trigger] d[i]).children.len() == 0 by {
            assert(d[i] == fs[i]);
        }
        lemma_flat_repeated_fields_len(d);
        assert(f.children.len() == 0);
        assert(repeated_field_errors(f.children) =~= Seq::<SpecValidationError>::empty());
        let w = when(field_names(d).contains(f.name), err(duplicate_field_message(f.name), f.span));
        assert(field_repeats(f, field_names(d)) =~= w);
        assert(repeated_field_errors(fs) == repeated_field_errors(d) + w);
        assert(field_names(fs) =~= field_names(d) + seq![f.name]);
        Seq::lemma_to_set_insert_commutes(field_names(d), f.name);
        vstd::seq_lib::seq_to_set_is_finite(field_names(d));
        if field_names(d).contains(f.name) {
            assert(field_names(d).to_set().insert(f.name) =~= field_names(d).to_set());
        } else {
            assert(!field_names(d).to_set().contains(f.name));
        }
    }
}

/// Each field is checked against the names of its earlier siblings: the duplicate-name
/// errors among the field checks are exactly one for each field whose name an earlier
/// sibling has, in order and at its own span (the first of a name is never reported),
/// with those of nested fields after their field. Among sibling fields without nested
/// fields there are as many as fields less distinct names.
pub proof fn law_each_repeated_field_is_reported_once(fs: Seq<SpecFieldDecl>)
    ensures
        duplicate_field_errors(fields_errors(fs)) == repeated_field_errors(fs),
        (forall|i: int| 0 <= i < fs.len() ==> (#[trigger] fs[i]).children.len() == 0) ==> repeated_field_errors(fs).len()
            + field_names(fs).to_set().len() == fs.len(),
{
    lemma_fields_duplicates(fs);
    if forall|i: int| 0 <= i < fs.len() ==> (#[trigger] fs[i]).children.len() == 0 {
        lemma_flat_repeated_fields_len(fs);
    }
}

pub open spec fn err_at(message: Str, span: Option<Span>) -> SpecValidationError {
    SpecValidationError { message, span, severity: Severity::Error }
}

/// Invocations and directives among the children of a definition.
pub open spec fn nested_errors(children: Seq<SpecNode>, m_invocation: Str, m_directive: Str) -> Seq<SpecValidationError>
    decreases children.len(),
{
    if children.len() == 0 {
        Seq::empty()
    } else {
        let c = children.last();
        nested_errors(children.drop_last(), m_invocation, m_directive) + (if c.is_invocation() {
            seq![err_at(m_invocation, c.span())]
        } else {
            Seq::empty()
        }) + (if c is Directive {
            seq![err_at(m_directive, c.span())]
        } else {
            Seq::empty()
        })
    }
}

pub open spec fn contract_errors(
    name: Str,
    extends: Option<Str>,
    fields: Seq<SpecFieldDecl>,
    children: Seq<SpecNode>,
    sp: Span,
) -> Seq<SpecValidationError> {
    when(name.len() == 0, err("contract definition must have a non-empty name"@, sp))
    + when(
        extends is Some && extends.unwrap().len() == 0,
        err("extends attribute must be a non-empty contract name"@, sp),
    )
    + nested_errors(
        children,
        "contract definitions must not contain invocations"@,
        "directive tags are not allowed inside contract definitions"@,
    )
    + fields_errors(fields)
}

// ---------------------------------------------------------------------------
// Nodes
// ---------------------------------------------------------------------------

pub open spec fn legacy_errors(extends: Option<Str>, legacy: Option<Str>, sp: Span) -> Seq<SpecValidationError> {
    match legacy {
        Some(leg) => if extends is Some && extends.unwrap() != leg {
            seq![
                err(
                    quoted("interface definition has both extends=\""@, extends.unwrap(), "\" and implements=\""@)
                        + leg + "\"; use only extends= on interface nodes"@,
                    sp,
                ),
            ]
        } else {
            seq![
                warn(
                    quoted("implements=\""@, leg, "\" on an interface definition is deprecated; use extends=\""@)
                        + leg + "\" instead"@,
                    sp,
                ),
            ]
        },
        None => Seq::empty(),
    }
}

/// The checks of a skill's kind.
pub open spec fn kind_errors(k: SpecNodeKind, children: Seq<SpecNode>, sp: Span) -> Seq<SpecValidationError> {
    match k {
        SpecNodeKind::Invocation { interface, impl_name, name, .. } => when(
            interface is None && impl_name is None && name is None,
            err("invocation must have at least one of: interface, impl, or name"@, sp),
        ) + when(
            name is Some && interface is Some,
            err("invocation cannot have both 'name' and 'interface'; use one resolution mode"@, sp),
        ) + when(
            name is Some && impl_name is Some,
            err("invocation cannot have both 'name' and 'impl'; use one resolution mode"@, sp),
        ),
        SpecNodeKind::InterfaceDefinition {
            name,
            extends,
            legacy_implements,
            params,
            return_decls,
            reads,
            writes,
            skill_refs,
            tool_constraints,
            ..
        } => when(name.len() == 0, err("interface definition must have a non-empty name"@, sp))
            + when(
            extends is Some && extends.unwrap().len() == 0,
            err("extends attribute must be a non-empty interface name"@, sp),
        ) + legacy_errors(extends, legacy_implements, sp) + interface_declaration_errors(
            params,
            return_decls,
            reads,
            writes,
        ) + skill_ref_errors(skill_refs) + tool_constraint_errors(tool_constraints),
        SpecNodeKind::ImplementationDefinition { name, implements, nodes, skill_refs, .. } => when(
            name.len() == 0,
            err("implementation definition must have a non-empty name"@, sp),
        ) + when(
            implements.len() == 0,
            err("implementation definition must have a non-empty implements field"@, sp),
        ) + node_decls_errors(nodes) + skill_ref_errors(skill_refs),
        SpecNodeKind::ContractDefinition { name, extends, fields, .. } => contract_errors(
            name,
            extends,
            fields,
            children,
            sp,
        ),
    }
}

/// The checks of a directive.
pub open spec fn directive_errors(k: SpecDirectiveKind, sp: Span) -> Seq<SpecValidationError> {
    match k {
        SpecDirectiveKind::Tool(t) => when(
            t.allow is Some && t.deny is Some,
            err("<tool> 'allow' and 'deny' are mutually exclusive"@, sp),
        ),
        SpecDirectiveKind::Session(_) => Seq::empty(),
        SpecDirectiveKind::Agent(a) => when(a.name.len() == 0, err("<agent> must have a non-empty name"@, sp)),
    }
}

/// The constraints below a directive, and the warnings that the directive raises: a
/// `<tool>` with both `allow` and `deny` is in error and changes nothing.
pub open spec fn directive_constraints(k: SpecDirectiveKind, c: SpecConstraints) -> (SpecConstraints, Seq<Str>) {
    match k {
        SpecDirectiveKind::Tool(t) => if t.allow is Some && t.deny is Some {
            (c, Seq::empty())
        } else {
            spec_apply(c, t)
        },
        _ => (c, Seq::empty()),
    }
}

pub open spec fn warnings_at(ws: Seq<Str>, sp: Span) -> Seq<SpecValidationError> {
    ws.map_values(|w: Str| warn(w, sp))
}

/// The findings for node `n` under the tool constraints `c`, in document order.
pub open spec fn node_errors(n: SpecNode, c: SpecConstraints) -> Seq<SpecValidationError>
    decreases n, 1nat,
{
    match n {
        SpecNode::Text(_) => Seq::empty(),
        SpecNode::Directive { kind, children, span } => {
            let (cc, ws) = directive_constraints(kind, c);
            directive_errors(kind, span) + warnings_at(ws, span) + nodes_errors(children, cc)
        },
        SpecNode::Skill { kind, children, span, .. } => kind_errors(kind, children, span) + (if kind is InterfaceDefinition
            || kind is ImplementationDefinition {
            nested_errors(
                children,
                "definition nodes must not contain invocations"@,
                "definition nodes must not contain directives"@,
            )
        } else {
            Seq::empty()
        }) + (if kind is ContractDefinition {
            Seq::empty()
        } else {
            nodes_errors(children, c)
        }),
    }
}

/// The findings for a list of nodes under the constraints `c`.
pub open spec fn nodes_errors(ns: Seq<SpecNode>, c: SpecConstraints) -> Seq<SpecValidationError>
    decreases ns, 0nat,
{
    if ns.len() == 0 {
        Seq::empty()
    } else {
        nodes_errors(ns.drop_last(), c) + node_errors(ns.last(), c)
    }
}

/// No constraint: everything allowed, nothing denied.
pub open spec fn no_constraints() -> SpecConstraints {
    SpecConstraints { allowed: None, denied: Seq::empty() }
}


// ---------------------------------------------------------------------------
// Checks
// ---------------------------------------------------------------------------

/// Record a finding.
fn push_err(errors: &mut Vec<ValidationError>, message: String, span: Option<Span>, severity: Severity)
    ensures
        errs_view(final(errors)@) == errs_view(old(errors)@).push(
            SpecValidationError { message: message@, span, severity },
        ),
{
    let ghost m = message@;
    errors.push(ValidationError { message, span, severity });
    assert(errs_view(errors@) =~= errs_view(old(errors)@).push(SpecValidationError { message: m, span, severity }));
}

/// `contract:<name>` with a non-empty name.
pub fn is_contract_reference(value: &str) -> (b: bool)
    ensures
        b == names_contract(value@),
{
    proof {
        reveal_strlit("contract:");
    }
    let v = chars_of(value);
    let p = crate::scan::lit("contract:");
    if v.len() <= 9 {
        return false;
    }
    let r = crate::scan::starts_with_at(v.as_slice(), 0, v.len(), p.as_slice());
    assert(v@.subrange(0, 9) =~= v@.take(9));
    r
}

fn is_basic_decl_type(value: &str) -> (b: bool)
    ensures
        b == basic_decl_type(value@),
{
    str_eq(value, "string") || str_eq(value, "enum") || str_eq(value, "number") || str_eq(value, "boolean")
        || str_eq(value, "path") || str_eq(value, "list")
}

/// A type that parameters and return values may declare.
pub fn is_valid_decl_type(value: &str) -> (b: bool)
    ensures
        b == valid_decl_type(value@),
{
    is_basic_decl_type(value) || is_contract_reference(value)
}

/// A type that contract fields may declare.
pub fn is_valid_field_type(value: &str) -> (b: bool)
    ensures
        b == valid_field_type(value@),
{
    is_valid_decl_type(value) || str_eq(value, "object") || str_eq(value, "list")
}

/// A field type that cannot have nested fields.
pub fn is_scalar_field_type(value: &str) -> (b: bool)
    ensures
        b == scalar_field_type(value@),
{
    str_eq(value, "string") || str_eq(value, "enum") || str_eq(value, "number") || str_eq(value, "boolean")
        || str_eq(value, "path") || is_contract_reference(value)
}

pub open spec fn attr_pairs_view(a: Seq<(String, Option<String>)>) -> Seq<(Str, Option<Str>)> {
    a.map_values(|p: (String, Option<String>)| (p.0@, opt_view(p.1)))
}

/// The first attribute of `attrs` written bare.
pub fn bare_attribute_name(attrs: &Vec<(String, Option<String>)>) -> (r: Option<String>)
    ensures
        opt_view(r) == bare_attribute(attr_pairs_view(attrs@)),
{
    proof {
        reveal_strlit("__aml_bare_attribute__");
    }
    let ghost av = attr_pairs_view(attrs@);
    let mut i: usize = 0;
    assert(av.skip(0) =~= av);
    while i < attrs.len()
        invariant
            0 <= i <= attrs@.len(),
            av == attr_pairs_view(attrs@),
            bare_attribute(av) == bare_attribute(av.skip(i as int)),
        decreases attrs@.len() - i,
    {
        assert(av.skip(i as int)[0] == av[i as int]);
        assert(av.skip(i as int).drop_first() =~= av.skip(i + 1));
        let hit = match &attrs[i].1 {
            Some(v) => str_eq(v.as_str(), BARE_ATTR_SENTINEL),
            None => false,
        };
        if hit {
            return Some(attrs[i].0.clone());
        }
        i = i + 1;
    }
    None
}

/// Record that `subject` writes `attr` bare.
pub fn push_invalid_bare_attribute(subject: &str, attr: &str, span: Span, errors: &mut Vec<ValidationError>)
    ensures
        errs_view(final(errors)@) == errs_view(old(errors)@).push(err(m_bare(subject@, attr@), span)),
{
    let mut msg = join3(subject, " uses bare attribute syntax for '", attr);
    msg.append("' (only 'required' may be bare)");
    push_err(errors, msg, Some(span), Severity::Error);
}

fn opt_is(o: &Option<String>, v: &str) -> (b: bool)
    ensures
        b == (opt_view(*o) == Some(v@)),
{
    match o {
        Some(x) => str_eq(x.as_str(), v),
        None => false,
    }
}

fn has_value(o: &Option<String>) -> (b: bool)
    ensures
        b == has_real_value(opt_view(*o)),
{
    proof {
        reveal_strlit("__aml_bare_attribute__");
    }
    match o {
        Some(x) => !str_eq(x.as_str(), BARE_ATTR_SENTINEL),
        None => false,
    }
}

fn names_contain(seen: &Vec<String>, name: &String) -> (b: bool)
    ensures
        b == strings_view(seen@).contains(name@),
{
    let mut i: usize = 0;
    while i < seen.len()
        invariant
            0 <= i <= seen@.len(),
            forall|j: int| 0 <= j < i ==> seen@[j]@ != name@,
        decreases seen@.len() - i,
    {
        if str_eq(seen[i].as_str(), name.as_str()) {
            assert(strings_view(seen@)[i as int] == name@);
            return true;
        }
        i = i + 1;
    }
    assert forall|j: int| 0 <= j < strings_view(seen@).len() implies strings_view(seen@)[j] != name@ by {
        assert(strings_view(seen@)[j] == seen@[j]@);
    }
    false
}

/// The `|`-separated entries of `values`, trimmed.
fn enum_entries_of(values: &str) -> (r: Vec<String>)
    ensures
        strings_view(r@) == enum_entries(values@),
{
    let v = chars_of(values);
    assert(v@.subrange(0, v@.len() as int) =~= v@);
    split_trim_of(v.as_slice(), 0, v.len(), '|')
}

fn any_empty(v: &Vec<String>) -> (b: bool)
    ensures
        b == strings_view(v@).contains(Seq::<char>::empty()),
{
    let mut i: usize = 0;
    while i < v.len()
        invariant
            0 <= i <= v@.len(),
            forall|j: int| 0 <= j < i ==> v@[j]@.len() != 0,
        decreases v@.len() - i,
    {
        if v[i].unicode_len() == 0 {
            assert(strings_view(v@)[i as int] =~= Seq::<char>::empty());
            return true;
        }
        i = i + 1;
    }
    assert forall|j: int| 0 <= j < strings_view(v@).len() implies strings_view(v@)[j] != Seq::<char>::empty() by {
        assert(strings_view(v@)[j] == v@[j]@);
    }
    false
}

fn check_param_names(p: &ParamDecl, seen: &Vec<String>, errors: &mut Vec<ValidationError>)
    ensures
        errs_view(final(errors)@) == errs_view(old(errors)@) + param_name_errors(p@, strings_view(seen@)),
{
    let ghost e0 = errs_view(errors@);
    if names_contain(seen, &p.name) {
        push_err(errors, join3("duplicate param name '", p.name.as_str(), "' in interface definition"), Some(p.span), Severity::Error);
    }
    let ghost e1 = errs_view(errors@);
    if p.name.unicode_len() == 0 {
        push_err(errors, String::from_str("param declaration must have a non-empty name"), Some(p.span), Severity::Error);
    }
    assert(errs_view(errors@) =~= e0 + param_name_errors(p@, strings_view(seen@)));
}

#[verifier::spinoff_prover]
fn check_param_type(p: &ParamDecl, errors: &mut Vec<ValidationError>)
    ensures
        errs_view(final(errors)@) == errs_view(old(errors)@) + param_type_errors(p@),
{
    let ghost e0 = errs_view(errors@);
    let ghost pv = p@;
    let attrs = vec![
        (String::from_str("type"), crate::ast::dup_opt(&p.param_type)),
        (String::from_str("default"), crate::ast::dup_opt(&p.default)),
        (String::from_str("values"), crate::ast::dup_opt(&p.values)),
    ];
    assert(attr_pairs_view(attrs@) =~= seq![("type"@, pv.param_type), ("default"@, pv.default), ("values"@, pv.values)]);
    match bare_attribute_name(&attrs) {
        Some(attr) => {
            let subject = join3("param '", p.name.as_str(), "'");
            push_invalid_bare_attribute(subject.as_str(), attr.as_str(), p.span, errors);
        },
        None => {},
    }
    let ghost e1 = errs_view(errors@);
    if has_value(&p.param_type) {
        let t = p.param_type.as_ref().unwrap();
        if !is_valid_decl_type(t.as_str()) {
            push_err(
                errors,
                join3(
                    "invalid param type '",
                    t.as_str(),
                    "' (expected one of: string, enum, number, boolean, path, list, contract:<name>)",
                ),
                Some(p.span),
                Severity::Error,
            );
        }
    }
    assert(errs_view(errors@) =~= e0 + param_type_errors(pv));
}

#[verifier::spinoff_prover]
fn check_param_values(p: &ParamDecl, errors: &mut Vec<ValidationError>)
    ensures
        errs_view(final(errors)@) == errs_view(old(errors)@) + param_values_errors(p@),
{
    let ghost e0 = errs_view(errors@);
    let name = p.name.as_str();
    let is_enum = opt_is(&p.param_type, "enum");
    if is_enum && p.values.is_none() {
        push_err(errors, join3("param '", name, "' has type 'enum' but no 'values' attribute"), Some(p.span), Severity::Error);
    }
    let ghost e1 = errs_view(errors@);
    if !is_enum && has_value(&p.values) {
        push_err(errors, join3("param '", name, "' has 'values' attribute but type is not 'enum'"), Some(p.span), Severity::Error);
    }
    let ghost e2 = errs_view(errors@);
    if has_value(&p.values) {
        let entries = enum_entries_of(p.values.as_ref().unwrap().as_str());
        if any_empty(&entries) {
            push_err(errors, join3("param '", name, "' has empty entries in 'values'"), Some(p.span), Severity::Warning);
        }
    }
    assert(errs_view(errors@) =~= e0 + param_values_errors(p@));
}

#[verifier::spinoff_prover]
fn check_param_default(p: &ParamDecl, errors: &mut Vec<ValidationError>)
    ensures
        errs_view(final(errors)@) == errs_view(old(errors)@) + param_default_errors(p@),
{
    let ghost e0 = errs_view(errors@);
    let name = p.name.as_str();
    if p.required == Some(true) && has_value(&p.default) {
        push_err(errors, join3("param '", name, "' is required but has a default value"), Some(p.span), Severity::Warning);
    }
    let ghost e1 = errs_view(errors@);
    if has_value(&p.default) && has_value(&p.values) {
        let d = p.default.as_ref().unwrap();
        let v = p.values.as_ref().unwrap();
        let entries = enum_entries_of(v.as_str());
        if !names_contain(&entries, d) {
            let mut msg = join3("param '", name, "' default '");
            msg.append(d.as_str());
            msg.append("' is not one of the allowed values: ");
            msg.append(v.as_str());
            push_err(errors, msg, Some(p.span), Severity::Error);
        }
    }
    assert(errs_view(errors@) =~= e0 + param_default_errors(p@));
}

#[verifier::spinoff_prover]
fn check_param_default_type(p: &ParamDecl, errors: &mut Vec<ValidationError>)
    ensures
        errs_view(final(errors)@) == errs_view(old(errors)@) + param_default_type_errors(p@),
{
    let ghost e0 = errs_view(errors@);
    let name = p.name.as_str();
    if opt_is(&p.param_type, "boolean") && has_value(&p.default) {
        let d = p.default.as_ref().unwrap();
        if !str_eq(d.as_str(), "true") && !str_eq(d.as_str(), "false") {
            let mut msg = join3("param '", name, "' has type 'boolean' but default '");
            msg.append(d.as_str());
            msg.append("' is not 'true' or 'false'");
            push_err(errors, msg, Some(p.span), Severity::Error);
        }
    }
    let ghost e1 = errs_view(errors@);
    if opt_is(&p.param_type, "number") && has_value(&p.default) {
        let d = p.default.as_ref().unwrap();
        if !is_valid_number(d.as_str()) {
            let mut msg = join3("param '", name, "' has type 'number' but default '");
            msg.append(d.as_str());
            msg.append("' is not a valid number");
            push_err(errors, msg, Some(p.span), Severity::Error);
        }
    }
    assert(errs_view(errors@) =~= e0 + param_default_type_errors(p@));
}

/// The checks of one `<param>` declaration.
#[verifier::spinoff_prover]
fn check_param(p: &ParamDecl, seen: &Vec<String>, errors: &mut Vec<ValidationError>)
    ensures
        errs_view(final(errors)@) == errs_view(old(errors)@) + param_errors(p@, strings_view(seen@)),
{
    let ghost e0 = errs_view(errors@);
    check_param_names(p, seen, errors);
    check_param_type(p, errors);
    check_param_values(p, errors);
    check_param_default(p, errors);
    check_param_default_type(p, errors);
    assert(errs_view(errors@) =~= e0 + param_errors(p@, strings_view(seen@)));
}

#[verifier::spinoff_prover]
fn check_return(r: &ReturnDecl, seen: &Vec<String>, errors: &mut Vec<ValidationError>)
    ensures
        errs_view(final(errors)@) == errs_view(old(errors)@) + return_errors(r@, strings_view(seen@)),
{
    let ghost e0 = errs_view(errors@);
    let ghost rv = r@;
    let name = r.name.as_str();
    if names_contain(seen, &r.name) {
        push_err(errors, join3("duplicate returns name '", name, "' in interface definition"), Some(r.span), Severity::Error);
    }
    let ghost e1 = errs_view(errors@);
    if r.name.unicode_len() == 0 {
        push_err(errors, String::from_str("returns declaration must have a non-empty name"), Some(r.span), Severity::Error);
    }
    let ghost e2 = errs_view(errors@);
    let attrs = vec![
        (String::from_str("type"), crate::ast::dup_opt(&r.return_type)),
        (String::from_str("values"), crate::ast::dup_opt(&r.values)),
    ];
    assert(attr_pairs_view(attrs@) =~= seq![("type"@, rv.return_type), ("values"@, rv.values)]);
    match bare_attribute_name(&attrs) {
        Some(attr) => {
            let subject = join3("returns '", name, "'");
            push_invalid_bare_attribute(subject.as_str(), attr.as_str(), r.span, errors);
        },
        None => {},
    }
    let ghost e3 = errs_view(errors@);
    if has_value(&r.return_type) {
        let t = r.return_type.as_ref().unwrap();
        if !is_valid_decl_type(t.as_str()) {
            push_err(
                errors,
                join3(
                    "invalid returns type '",
                    t.as_str(),
                    "' (expected one of: string, enum, number, boolean, path, list, contract:<name>)",
                ),
                Some(r.span),
                Severity::Error,
            );
        }
    }
    let ghost e4 = errs_view(errors@);
    let is_enum = opt_is(&r.return_type, "enum");
    if is_enum && r.values.is_none() {
        push_err(errors, join3("returns '", name, "' has type 'enum' but no 'values' attribute"), Some(r.span), Severity::Error);
    }
    let ghost e5 = errs_view(errors@);
    if !is_enum && has_value(&r.values) {
        push_err(errors, join3("returns '", name, "' has 'values' attribute but type is not 'enum'"), Some(r.span), Severity::Error);
    }
    assert(errs_view(errors@) =~= e0 + return_errors(rv, strings_view(seen@)));
}

fn check_io(io: &Option<IoDecl>, what: &str, errors: &mut Vec<ValidationError>)
    ensures
        errs_view(final(errors)@) == errs_view(old(errors)@) + io_errors(crate::ast::opt_io_view(*io), what@),
{
    match io {
        Some(d) => {
            if d.patterns.len() == 0 {
                push_err(errors, join3(what, " declaration has no patterns", ""), Some(d.span), Severity::Warning);
                proof {
                    reveal_strlit("");
                }
            }
        },
        None => {},
    }
    assert(errs_view(errors@) =~= errs_view(old(errors)@) + io_errors(crate::ast::opt_io_view(*io), what@));
}

/// Check the typed declarations of an interface definition.
pub fn validate_interface_declarations(
    params: &Vec<ParamDecl>,
    return_decls: &Vec<ReturnDecl>,
    reads: &Option<IoDecl>,
    writes: &Option<IoDecl>,
    span: Span,
    errors: &mut Vec<ValidationError>,
)
    ensures
        errs_view(final(errors)@) == errs_view(old(errors)@) + interface_declaration_errors(
            params.deep_view(),
            return_decls.deep_view(),
            crate::ast::opt_io_view(*reads),
            crate::ast::opt_io_view(*writes),
        ),
{
    let ghost e0 = errs_view(errors@);
    let ghost ps = params.deep_view();
    let mut seen: Vec<String> = Vec::new();
    let mut i: usize = 0;
    assert(ps.take(0) =~= Seq::<SpecParamDecl>::empty());
    assert(strings_view(seen@) =~= param_names(ps.take(0)));
    assert(errs_view(errors@) =~= e0 + params_errors(ps.take(0)));
    while i < params.len()
        invariant
            0 <= i <= params@.len(),
            ps == params.deep_view(),
            strings_view(seen@) == param_names(ps.take(i as int)),
            errs_view(errors@) == e0 + params_errors(ps.take(i as int)),
        decreases params@.len() - i,
    {
        assert(ps.take(i + 1).drop_last() =~= ps.take(i as int));
        assert(ps.take(i + 1).last() == params@[i as int]@);
        let ghost before = errs_view(errors@);
        check_param(&params[i], &seen, errors);
        assert(errs_view(errors@) =~= e0 + params_errors(ps.take(i + 1)));
        let ghost sv_before = strings_view(seen@);
        seen.push(params[i].name.clone());
        assert(strings_view(seen@) =~= sv_before.push(params@[i as int].name@));
        assert(param_names(ps.take(i + 1)) =~= param_names(ps.take(i as int)).push(ps[i as int].name));
        assert(strings_view(seen@) =~= param_names(ps.take(i + 1)));
        i = i + 1;
    }
    assert(ps.take(params@.len() as int) =~= ps);
    let ghost e1 = errs_view(errors@);
    let ghost rs = return_decls.deep_view();
    let mut seen_r: Vec<String> = Vec::new();
    let mut k: usize = 0;
    assert(rs.take(0) =~= Seq::<SpecReturnDecl>::empty());
    assert(strings_view(seen_r@) =~= return_names(rs.take(0)));
    assert(errs_view(errors@) =~= e1 + returns_errors(rs.take(0)));
    while k < return_decls.len()
        invariant
            0 <= k <= return_decls@.len(),
            rs == return_decls.deep_view(),
            strings_view(seen_r@) == return_names(rs.take(k as int)),
            errs_view(errors@) == e1 + returns_errors(rs.take(k as int)),
        decreases return_decls@.len() - k,
    {
        assert(rs.take(k + 1).drop_last() =~= rs.take(k as int));
        assert(rs.take(k + 1).last() == return_decls@[k as int]@);
        check_return(&return_decls[k], &seen_r, errors);
        assert(errs_view(errors@) =~= e1 + returns_errors(rs.take(k + 1)));
        let ghost sv_before = strings_view(seen_r@);
        seen_r.push(return_decls[k].name.clone());
        assert(strings_view(seen_r@) =~= sv_before.push(return_decls@[k as int].name@));
        assert(return_names(rs.take(k + 1)) =~= return_names(rs.take(k as int)).push(rs[k as int].name));
        assert(strings_view(seen_r@) =~= return_names(rs.take(k + 1)));
        k = k + 1;
    }
    assert(rs.take(return_decls@.len() as int) =~= rs);
    check_io(reads, "reads", errors);
    check_io(writes, "writes", errors);
    assert(errs_view(errors@) =~= e0 + interface_declaration_errors(ps, rs, crate::ast::opt_io_view(*reads), crate::ast::opt_io_view(*writes)));
}

/// Check the skill references of a definition.
pub fn validate_skill_refs(skill_refs: &Vec<SkillRef>, span: Span, errors: &mut Vec<ValidationError>)
    ensures
        errs_view(final(errors)@) == errs_view(old(errors)@) + skill_ref_errors(skill_refs.deep_view()),
{
    let ghost e0 = errs_view(errors@);
    let ghost rs = skill_refs.deep_view();
    let mut i: usize = 0;
    assert(rs.take(0) =~= Seq::<SpecSkillRef>::empty());
    assert(errs_view(errors@) =~= e0 + skill_ref_errors(rs.take(0)));
    while i < skill_refs.len()
        invariant
            0 <= i <= skill_refs@.len(),
            rs == skill_refs.deep_view(),
            errs_view(errors@) == e0 + skill_ref_errors(rs.take(i as int)),
        decreases skill_refs@.len() - i,
    {
        assert(rs.take(i + 1).drop_last() =~= rs.take(i as int));
        assert(rs.take(i + 1).last() == skill_refs@[i as int]@);
        if skill_refs[i].ref_name.unicode_len() == 0 {
            push_err(errors, String::from_str("skill ref must have a non-empty name"), Some(skill_refs[i].span), Severity::Error);
        }
        assert(errs_view(errors@) =~= e0 + skill_ref_errors(rs.take(i + 1)));
        i = i + 1;
    }
    assert(rs.take(skill_refs@.len() as int) =~= rs);
}

/// Check the tool constraints declared by an interface.
pub fn validate_tool_constraints(constraints: &Vec<ToolConstraint>, span: Span, errors: &mut Vec<ValidationError>)
    ensures
        errs_view(final(errors)@) == errs_view(old(errors)@) + tool_constraint_errors(constraints.deep_view()),
{
    let ghost e0 = errs_view(errors@);
    let ghost cs = constraints.deep_view();
    let mut i: usize = 0;
    assert(cs.take(0) =~= Seq::<SpecToolConstraint>::empty());
    assert(errs_view(errors@) =~= e0 + tool_constraint_errors(cs.take(0)));
    while i < constraints.len()
        invariant
            0 <= i <= constraints@.len(),
            cs == constraints.deep_view(),
            errs_view(errors@) == e0 + tool_constraint_errors(cs.take(i as int)),
        decreases constraints@.len() - i,
    {
        assert(cs.take(i + 1).drop_last() =~= cs.take(i as int));
        assert(cs.take(i + 1).last() == constraints@[i as int]@);
        let tc = &constraints[i];
        let ghost mid = errs_view(errors@);
        if tc.allow.len() > 0 && tc.deny.len() > 0 {
            push_err(errors, String::from_str("<tool> in interface cannot have both 'allow' and 'deny'"), Some(tc.span), Severity::Error);
        }
        let ghost mid2 = errs_view(errors@);
        if tc.allow.len() == 0 && tc.deny.len() == 0 {
            push_err(errors, String::from_str("<tool> in interface must have 'allow' or 'deny'"), Some(tc.span), Severity::Error);
        }
        assert(errs_view(errors@) =~= e0 + tool_constraint_errors(cs.take(i + 1)));
        i = i + 1;
    }
    assert(cs.take(constraints@.len() as int) =~= cs);
}

fn check_node_decl(n: &NodeDecl, seen: &Vec<String>, errors: &mut Vec<ValidationError>)
    ensures
        errs_view(final(errors)@) == errs_view(old(errors)@) + node_decl_errors(n@, strings_view(seen@)),
{
    let ghost e0 = errs_view(errors@);
    let name = n.name.as_str();
    if n.name.unicode_len() == 0 {
        push_err(errors, String::from_str("node declaration must have a non-empty name"), Some(n.span), Severity::Error);
    }
    let ghost e1 = errs_view(errors@);
    if names_contain(seen, &n.name) {
        push_err(errors, join3("duplicate node name '", name, "' in implementation"), Some(n.span), Severity::Error);
    }
    let ghost e2 = errs_view(errors@);
    if n.node_type == NodeType::Tool && n.tool_use.is_none() {
        push_err(errors, join3("node '", name, "' has type 'tool' but no <tool use=\"...\"/> declaration"), Some(n.span), Severity::Warning);
    }
    let ghost e3 = errs_view(errors@);
    if n.node_type == NodeType::Prompt && n.tool_use.is_some() {
        push_err(errors, join3("node '", name, "' has type 'prompt' but declares <tool use=\"...\"/>"), Some(n.span), Severity::Warning);
    }
    assert(errs_view(errors@) =~= e0 + node_decl_errors(n@, strings_view(seen@)));
}

/// Check the node declarations of an implementation definition.
pub fn validate_node_declarations(nodes: &Vec<NodeDecl>, span: Span, errors: &mut Vec<ValidationError>)
    ensures
        errs_view(final(errors)@) == errs_view(old(errors)@) + node_decls_errors(nodes.deep_view()),
{
    let ghost e0 = errs_view(errors@);
    let ghost ns = nodes.deep_view();
    let mut seen: Vec<String> = Vec::new();
    let mut i: usize = 0;
    assert(ns.take(0) =~= Seq::<SpecNodeDecl>::empty());
    assert(strings_view(seen@) =~= node_names(ns.take(0)));
    assert(errs_view(errors@) =~= e0 + node_decls_errors(ns.take(0)));
    while i < nodes.len()
        invariant
            0 <= i <= nodes@.len(),
            ns == nodes.deep_view(),
            strings_view(seen@) == node_names(ns.take(i as int)),
            errs_view(errors@) == e0 + node_decls_errors(ns.take(i as int)),
        decreases nodes@.len() - i,
    {
        assert(ns.take(i + 1).drop_last() =~= ns.take(i as int));
        assert(ns.take(i + 1).last() == nodes@[i as int]@);
        check_node_decl(&nodes[i], &seen, errors);
        assert(errs_view(errors@) =~= e0 + node_decls_errors(ns.take(i + 1)));
        let ghost sv_before = strings_view(seen@);
        seen.push(nodes[i].name.clone());
        assert(strings_view(seen@) =~= sv_before.push(nodes@[i as int].name@));
        assert(node_names(ns.take(i + 1)) =~= node_names(ns.take(i as int)).push(ns[i as int].name));
        assert(strings_view(seen@) =~= node_names(ns.take(i + 1)));
        i = i + 1;
    }
    assert(ns.take(nodes@.len() as int) =~= ns);
}

fn check_field_name(f: &FieldDecl, seen: &Vec<String>, errors: &mut Vec<ValidationError>)
    ensures
        errs_view(final(errors)@) == errs_view(old(errors)@) + field_name_errors(f.model(), strings_view(seen@)),
{
    let ghost e0 = errs_view(errors@);
    if f.name.unicode_len() == 0 {
        push_err(errors, String::from_str("field declaration must have a non-empty name"), Some(f.span), Severity::Error);
    }
    let ghost e1 = errs_view(errors@);
    if names_contain(seen, &f.name) {
        push_err(errors, join3("duplicate field name '", f.name.as_str(), "' in contract definition"), Some(f.span), Severity::Error);
    }
    assert(errs_view(errors@) =~= e0 + field_name_errors(f.model(), strings_view(seen@)));
}

#[verifier::spinoff_prover]
fn check_field_type(f: &FieldDecl, errors: &mut Vec<ValidationError>)
    ensures
        errs_view(final(errors)@) == errs_view(old(errors)@) + field_type_errors(f.model()),
{
    let ghost e0 = errs_view(errors@);
    let ghost fv = f.model();
    let name = f.name.as_str();
    let sp = f.span;
    let attrs = vec![
        (String::from_str("type"), crate::ast::dup_opt(&f.field_type)),
        (String::from_str("default"), crate::ast::dup_opt(&f.default)),
        (String::from_str("values"), crate::ast::dup_opt(&f.values)),
    ];
    assert(attr_pairs_view(attrs@) =~= seq![("type"@, fv.field_type), ("default"@, fv.default), ("values"@, fv.values)]);
    match bare_attribute_name(&attrs) {
        Some(attr) => {
            let subject = join3("field '", name, "'");
            push_invalid_bare_attribute(subject.as_str(), attr.as_str(), sp, errors);
        },
        None => {},
    }
    let ghost e3 = errs_view(errors@);
    if has_value(&f.field_type) {
        let t = f.field_type.as_ref().unwrap();
        if !is_valid_field_type(t.as_str()) {
            push_err(
                errors,
                join3(
                    "invalid field type '",
                    t.as_str(),
                    "' (expected one of: string, enum, number, boolean, path, list, object, contract:<name>)",
                ),
                Some(sp),
                Severity::Error,
            );
        }
    }
    let ghost e4 = errs_view(errors@);
    match &f.field_type {
        Some(t) => {
            if is_scalar_field_type(t.as_str()) && f.children.len() > 0 {
                let mut msg = join3("field '", name, "' has children but type '");
                msg.append(t.as_str());
                msg.append("' is scalar");
                push_err(errors, msg, Some(sp), Severity::Error);
            }
        },
        None => {},
    }
    let ghost e5 = errs_view(errors@);
    if opt_is(&f.field_type, "enum") && f.values.is_none() {
        push_err(errors, join3("field '", name, "' has type 'enum' but no 'values' attribute"), Some(sp), Severity::Error);
    }
    assert(errs_view(errors@) =~= e0 + field_type_errors(fv));
}

/// The checks of one field and, recursively, of its nested fields.
fn check_field(f: &FieldDecl, seen: &Vec<String>, errors: &mut Vec<ValidationError>)
    ensures
        errs_view(final(errors)@) == errs_view(old(errors)@) + field_errors(f.model(), strings_view(seen@)),
    decreases f, 1nat,
{
    let ghost e0 = errs_view(errors@);
    check_field_name(f, seen, errors);
    check_field_type(f, errors);
    validate_field_declarations(&f.children, errors);
    assert(errs_view(errors@) =~= e0 + field_errors(f.model(), strings_view(seen@)));
}

/// Check the field declarations of a contract (and their nested fields).
pub fn validate_field_declarations(fields: &Vec<FieldDecl>, errors: &mut Vec<ValidationError>)
    ensures
        errs_view(final(errors)@) == errs_view(old(errors)@) + fields_errors(FieldDecl::models(fields@)),
    decreases fields, 0nat,
{
    let ghost e0 = errs_view(errors@);
    let ghost fs = FieldDecl::models(fields@);
    let mut seen: Vec<String> = Vec::new();
    let mut i: usize = 0;
    assert(fs.take(0) =~= Seq::<SpecFieldDecl>::empty());
    assert(strings_view(seen@) =~= field_names(fs.take(0)));
    assert(errs_view(errors@) =~= e0 + fields_errors(fs.take(0)));
    while i < fields.len()
        invariant
            0 <= i <= fields@.len(),
            fs == FieldDecl::models(fields@),
            strings_view(seen@) == field_names(fs.take(i as int)),
            errs_view(errors@) == e0 + fields_errors(fs.take(i as int)),
        decreases fields@.len() - i,
    {
        assert(fs.take(i + 1).drop_last() =~= fs.take(i as int));
        assert(fs.take(i + 1).last() == fields@[i as int].model());
        check_field(&fields[i], &seen, errors);
        assert(errs_view(errors@) =~= e0 + fields_errors(fs.take(i + 1)));
        let ghost sv_before = strings_view(seen@);
        seen.push(fields[i].name.clone());
        assert(strings_view(seen@) =~= sv_before.push(fields@[i as int].name@));
        assert(field_names(fs.take(i + 1)) =~= field_names(fs.take(i as int)).push(fs[i as int].name));
        assert(strings_view(seen@) =~= field_names(fs.take(i + 1)));
        i = i + 1;
    }
    assert(fs.take(fields@.len() as int) =~= fs);
}

/// Record an error for each invocation and each directive among `children`.
fn check_nested(children: &Vec<Node>, m_invocation: &str, m_directive: &str, errors: &mut Vec<ValidationError>)
    ensures
        errs_view(final(errors)@) == errs_view(old(errors)@) + nested_errors(Node::models(children@), m_invocation@, m_directive@),
{
    let ghost e0 = errs_view(errors@);
    let ghost cs = Node::models(children@);
    let mut i: usize = 0;
    assert(cs.take(0) =~= Seq::<SpecNode>::empty());
    assert(errs_view(errors@) =~= e0 + nested_errors(cs.take(0), m_invocation@, m_directive@));
    while i < children.len()
        invariant
            0 <= i <= children@.len(),
            cs == Node::models(children@),
            errs_view(errors@) == e0 + nested_errors(cs.take(i as int), m_invocation@, m_directive@),
        decreases children@.len() - i,
    {
        assert(cs.take(i + 1).drop_last() =~= cs.take(i as int));
        assert(cs.take(i + 1).last() == children@[i as int]@);
        let child = &children[i];
        let ghost mid = errs_view(errors@);
        if child.is_invocation() {
            push_err(errors, String::from_str(m_invocation), child.span(), Severity::Error);
        }
        let ghost mid2 = errs_view(errors@);
        if child.is_directive() {
            push_err(errors, String::from_str(m_directive), child.span(), Severity::Error);
        }
        assert(errs_view(errors@) =~= e0 + nested_errors(cs.take(i + 1), m_invocation@, m_directive@));
        i = i + 1;
    }
    assert(cs.take(children@.len() as int) =~= cs);
}

/// Check a contract definition: its name, parent, children and fields.
pub fn validate_contract_definition(
    name: &String,
    extends: &Option<String>,
    fields: &Vec<FieldDecl>,
    children: &Vec<Node>,
    span: Span,
    errors: &mut Vec<ValidationError>,
)
    ensures
        errs_view(final(errors)@) == errs_view(old(errors)@) + contract_errors(
            name@,
            opt_view(*extends),
            FieldDecl::models(fields@),
            Node::models(children@),
            span,
        ),
{
    proof {
        reveal_strlit("contract definitions must not contain invocations");
    }
    let ghost e0 = errs_view(errors@);
    if name.unicode_len() == 0 {
        push_err(errors, String::from_str("contract definition must have a non-empty name"), Some(span), Severity::Error);
    }
    let ghost e1 = errs_view(errors@);
    match extends {
        Some(p) => {
            if p.unicode_len() == 0 {
                push_err(errors, String::from_str("extends attribute must be a non-empty contract name"), Some(span), Severity::Error);
            }
        },
        None => {},
    }
    let ghost e2 = errs_view(errors@);
    check_nested(
        children,
        "contract definitions must not contain invocations",
        "directive tags are not allowed inside contract definitions",
        errors,
    );
    validate_field_declarations(fields, errors);
    assert(errs_view(errors@) =~= e0 + contract_errors(name@, opt_view(*extends), FieldDecl::models(fields@), Node::models(children@), span));
}

/// Check a directive.
pub fn validate_directive(kind: &DirectiveKind, span: Span, errors: &mut Vec<ValidationError>)
    ensures
        errs_view(final(errors)@) == errs_view(old(errors)@) + directive_errors(kind@, span),
{
    match kind {
        DirectiveKind::Tool(t) => {
            if t.allow.is_some() && t.deny.is_some() {
                push_err(errors, String::from_str("<tool> 'allow' and 'deny' are mutually exclusive"), Some(span), Severity::Error);
            }
        },
        DirectiveKind::Session(_) => {},
        DirectiveKind::Agent(a) => {
            if a.name.unicode_len() == 0 {
                push_err(errors, String::from_str("<agent> must have a non-empty name"), Some(span), Severity::Error);
            }
        },
    }
    assert(errs_view(errors@) =~= errs_view(old(errors)@) + directive_errors(kind@, span));
}

fn check_legacy(extends: &Option<String>, legacy: &Option<String>, span: Span, errors: &mut Vec<ValidationError>)
    ensures
        errs_view(final(errors)@) == errs_view(old(errors)@) + legacy_errors(opt_view(*extends), opt_view(*legacy), span),
{
    match legacy {
        Some(leg) => {
            let conflict = match extends {
                Some(ext) => !str_eq(ext.as_str(), leg.as_str()),
                None => false,
            };
            if conflict {
                let ext = extends.as_ref().unwrap();
                let mut msg = join3("interface definition has both extends=\"", ext.as_str(), "\" and implements=\"");
                msg.append(leg.as_str());
                msg.append("\"; use only extends= on interface nodes");
                push_err(errors, msg, Some(span), Severity::Error);
            } else {
                let mut msg = join3("implements=\"", leg.as_str(), "\" on an interface definition is deprecated; use extends=\"");
                msg.append(leg.as_str());
                msg.append("\" instead");
                push_err(errors, msg, Some(span), Severity::Warning);
            }
        },
        None => {},
    }
    assert(errs_view(errors@) =~= errs_view(old(errors)@) + legacy_errors(opt_view(*extends), opt_view(*legacy), span));
}

/// Check a skill's kind.
#[verifier::spinoff_prover]
#[verifier::rlimit(40)]
pub fn validate_kind(kind: &NodeKind, children: &Vec<Node>, span: Span, errors: &mut Vec<ValidationError>)
    ensures
        errs_view(final(errors)@) == errs_view(old(errors)@) + kind_errors(kind@, Node::models(children@), span),
{
    let ghost e0 = errs_view(errors@);
    match kind {
        NodeKind::Invocation { interface, impl_name, name, .. } => {
            if interface.is_none() && impl_name.is_none() && name.is_none() {
                push_err(
                    errors,
                    String::from_str("invocation must have at least one of: interface, impl, or name"),
                    Some(span),
                    Severity::Error,
                );
            }
            let ghost e1 = errs_view(errors@);
            if name.is_some() && interface.is_some() {
                push_err(
                    errors,
                    String::from_str("invocation cannot have both 'name' and 'interface'; use one resolution mode"),
                    Some(span),
                    Severity::Error,
                );
            }
            let ghost e2 = errs_view(errors@);
            if name.is_some() && impl_name.is_some() {
                push_err(
                    errors,
                    String::from_str("invocation cannot have both 'name' and 'impl'; use one resolution mode"),
                    Some(span),
                    Severity::Error,
                );
            }
            assert(errs_view(errors@) =~= e0 + kind_errors(kind@, Node::models(children@), span));
        },
        NodeKind::InterfaceDefinition {
            name,
            extends,
            legacy_implements,
            params,
            return_decls,
            reads,
            writes,
            skill_refs,
            tool_constraints,
            ..
        } => {
            if name.unicode_len() == 0 {
                push_err(errors, String::from_str("interface definition must have a non-empty name"), Some(span), Severity::Error);
            }
            let ghost e1 = errs_view(errors@);
            match extends {
                Some(e) => {
                    if e.unicode_len() == 0 {
                        push_err(errors, String::from_str("extends attribute must be a non-empty interface name"), Some(span), Severity::Error);
                    }
                },
                None => {},
            }
            let ghost e2 = errs_view(errors@);
            check_legacy(extends, legacy_implements, span, errors);
            validate_interface_declarations(params, return_decls, reads, writes, span, errors);
            validate_skill_refs(skill_refs, span, errors);
            validate_tool_constraints(tool_constraints, span, errors);
            assert(errs_view(errors@) =~= e0 + kind_errors(kind@, Node::models(children@), span));
        },
        NodeKind::ImplementationDefinition { name, implements, nodes, skill_refs, .. } => {
            if name.unicode_len() == 0 {
                push_err(errors, String::from_str("implementation definition must have a non-empty name"), Some(span), Severity::Error);
            }
            let ghost e1 = errs_view(errors@);
            if implements.unicode_len() == 0 {
                push_err(
                    errors,
                    String::from_str("implementation definition must have a non-empty implements field"),
                    Some(span),
                    Severity::Error,
                );
            }
            let ghost e2 = errs_view(errors@);
            validate_node_declarations(nodes, span, errors);
            validate_skill_refs(skill_refs, span, errors);
            assert(errs_view(errors@) =~= e0 + kind_errors(kind@, Node::models(children@), span));
        },
        NodeKind::ContractDefinition { name, extends, fields, .. } => {
            validate_contract_definition(name, extends, fields, children, span, errors);
        },
    }
}

/// Check `node` and its descendants under the tool constraints `constraints`.
pub fn validate_node(node: &Node, constraints: &ToolConstraints, errors: &mut Vec<ValidationError>)
    ensures
        errs_view(final(errors)@) == errs_view(old(errors)@) + node_errors(node@, constraints@),
    decreases node, 1nat,
{
    let ghost e0 = errs_view(errors@);
    match node {
        Node::Text(_) => {
            assert(errs_view(errors@) =~= e0 + node_errors(node@, constraints@));
        },
        Node::Directive { kind, children, span } => {
            validate_directive(kind, *span, errors);
            let ghost e1 = errs_view(errors@);
            let child_constraints = match kind {
                DirectiveKind::Tool(tool) => {
                    if tool.allow.is_some() && tool.deny.is_some() {
                        constraints.duplicate()
                    } else {
                        let (nc, warnings) = constraints.apply(tool);
                        let ghost ws = strings_view(warnings@);
                        let mut k: usize = 0;
                        assert(warnings_at(ws.take(0), *span) =~= Seq::<SpecValidationError>::empty());
                        assert(errs_view(errors@) =~= e1 + warnings_at(ws.take(0), *span));
                        while k < warnings.len()
                            invariant
                                0 <= k <= warnings@.len(),
                                ws == strings_view(warnings@),
                                errs_view(errors@) == e1 + warnings_at(ws.take(k as int), *span),
                            decreases warnings@.len() - k,
                        {
                            push_err(errors, warnings[k].clone(), Some(*span), Severity::Warning);
                            assert(warnings_at(ws.take(k + 1), *span) =~= warnings_at(ws.take(k as int), *span).push(warn(ws[k as int], *span)));
                            k = k + 1;
                        }
                        assert(ws.take(warnings@.len() as int) =~= ws);
                        nc
                    }
                },
                _ => constraints.duplicate(),
            };
            let ghost e2 = errs_view(errors@);
            assert(e2 == e1 + warnings_at(directive_constraints(kind@, constraints@).1, *span)) by {
                match kind {
                    DirectiveKind::Tool(tool) => {
                        if tool.allow.is_some() && tool.deny.is_some() {
                            assert(warnings_at(Seq::<Str>::empty(), *span) =~= Seq::<SpecValidationError>::empty());
                        }
                    },
                    _ => {
                        assert(warnings_at(Seq::<Str>::empty(), *span) =~= Seq::<SpecValidationError>::empty());
                    },
                }
            }
            assert(child_constraints@ == directive_constraints(kind@, constraints@).0);
            validate_nodes_in(children, &child_constraints, errors);
            assert(errs_view(errors@) =~= e0 + node_errors(node@, constraints@));
        },
        Node::Skill { kind, children, span, .. } => {
            validate_kind(kind, children, *span, errors);
            let ghost e1 = errs_view(errors@);
            let is_def = match kind {
                NodeKind::InterfaceDefinition { .. } => true,
                NodeKind::ImplementationDefinition { .. } => true,
                _ => false,
            };
            if is_def {
                check_nested(
                    children,
                    "definition nodes must not contain invocations",
                    "definition nodes must not contain directives",
                    errors,
                );
            }
            let ghost e2 = errs_view(errors@);
            let is_contract = match kind {
                NodeKind::ContractDefinition { .. } => true,
                _ => false,
            };
            if !is_contract {
                validate_nodes_in(children, constraints, errors);
            }
            assert(errs_view(errors@) =~= e0 + node_errors(node@, constraints@));
        },
    }
}

/// Check a list of sibling nodes under the same constraints.
fn validate_nodes_in(nodes: &Vec<Node>, constraints: &ToolConstraints, errors: &mut Vec<ValidationError>)
    ensures
        errs_view(final(errors)@) == errs_view(old(errors)@) + nodes_errors(Node::models(nodes@), constraints@),
    decreases nodes, 0nat,
{
    let ghost e0 = errs_view(errors@);
    let ghost ns = Node::models(nodes@);
    let mut i: usize = 0;
    assert(ns.take(0) =~= Seq::<SpecNode>::empty());
    assert(errs_view(errors@) =~= e0 + nodes_errors(ns.take(0), constraints@));
    while i < nodes.len()
        invariant
            0 <= i <= nodes@.len(),
            ns == Node::models(nodes@),
            errs_view(errors@) == e0 + nodes_errors(ns.take(i as int), constraints@),
        decreases nodes@.len() - i,
    {
        assert(ns.take(i + 1).drop_last() =~= ns.take(i as int));
        assert(ns.take(i + 1).last() == nodes@[i as int]@);
        validate_node(&nodes[i], constraints, errors);
        assert(errs_view(errors@) =~= e0 + nodes_errors(ns.take(i + 1), constraints@));
        i = i + 1;
    }
    assert(ns.take(nodes@.len() as int) =~= ns);
}

/// Validate a parsed AST for semantic correctness: every finding, in document order.
pub fn validate(nodes: &[Node]) -> (errors: Vec<ValidationError>)
    ensures
        errs_view(errors@) == nodes_errors(Node::models(nodes@), no_constraints()),
{
    let mut errors: Vec<ValidationError> = Vec::new();
    let constraints = ToolConstraints::default();
    assert(constraints@ =~= no_constraints());
    let ghost ns = Node::models(nodes@);
    let mut i: usize = 0;
    assert(ns.take(0) =~= Seq::<SpecNode>::empty());
    assert(errs_view(errors@) =~= nodes_errors(ns.take(0), no_constraints()));
    while i < nodes.len()
        invariant
            0 <= i <= nodes@.len(),
            ns == Node::models(nodes@),
            constraints@ == no_constraints(),
            errs_view(errors@) == nodes_errors(ns.take(i as int), no_constraints()),
        decreases nodes@.len() - i,
    {
        assert(ns.take(i + 1).drop_last() =~= ns.take(i as int));
        assert(ns.take(i + 1).last() == nodes@[i as int]@);
        validate_node(&nodes[i], &constraints, &mut errors);
        assert(errs_view(errors@) =~= nodes_errors(ns.take(i + 1), no_constraints()));
        i = i + 1;
    }
    assert(ns.take(nodes@.len() as int) =~= ns);
    errors
}

/// How a severity reads in a message.
pub open spec fn severity_word(s: Severity) -> Str {
    match s {
        Severity::Error => "error"@,
        Severity::Warning => "warning"@,
    }
}

impl ValidationError {
    /// `[start..end] error: message`, or without the span when there is none.
    pub fn to_string(&self) -> (s: String)
        ensures
            s@ == match self.span {
                Some(sp) => "["@ + crate::text::decimal(sp.start as nat) + ".."@ + crate::text::decimal(sp.end as nat)
                    + "] "@ + severity_word(self.severity) + ": "@ + self.message@,
                None => severity_word(self.severity) + ": "@ + self.message@,
            },
    {
        let prefix = match self.severity {
            Severity::Error => "error",
            Severity::Warning => "warning",
        };
        match self.span {
            Some(sp) => {
                let mut s = String::from_str("[");
                s.append(crate::text::usize_to_string(sp.start).as_str());
                s.append("..");
                s.append(crate::text::usize_to_string(sp.end).as_str());
                s.append("] ");
                s.append(prefix);
                s.append(": ");
                s.append(self.message.as_str());
                s
            },
            None => join3(prefix, ": ", self.message.as_str()),
        }
    }
}

} // verus!
