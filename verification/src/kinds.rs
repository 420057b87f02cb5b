//! Building a skill's kind and a directive's kind from the attributes of its tag.
use vstd::prelude::*;

use crate::ast::{
    FieldDecl, NodeDecl, ParamDecl, ReturnDecl, SkillRef, SpecFieldDecl, SpecNodeDecl,
    SpecParamDecl, SpecReturnDecl, SpecSkillRef, SpecToolConstraint, ToolConstraint, opt_view, spec_agent_mode_of, spec_failure_mode_of, spec_policy_of, AgentDirective, AgentMode,
    DirectiveKind, ExecutionPolicy, FailureMode, NodeKind, SessionDirective, SpecAgentDirective,
    SpecDirectiveKind, SpecNodeKind, SpecSessionDirective, SpecToolDirective, Str, ToolDirective,
};
use crate::attrs::{attr_get, attrs_view, get_attr, has_attr};
use crate::parser::{error, ParseError};
use crate::scan::{tag_text, TagName};
use crate::text::{join3, str_eq};

verus! {

/// Whether `c` is an ASCII decimal digit.
pub open spec fn is_digit(c: char) -> bool {
    '0' <= c && c <= '9'
}

/// The value of a string of decimal digits.
pub open spec fn digits_value(d: Seq<char>) -> nat
    decreases d.len(),
{
    if d.len() == 0 {
        0
    } else {
        digits_value(d.drop_last()) * 10 + ((d.last() as u32) - ('0' as u32)) as nat
    }
}

/// The digits of a number: the text without a leading `+`.
pub open spec fn digits_part(s: Seq<char>) -> Seq<char> {
    if s.len() > 0 && s[0] == '+' {
        s.drop_first()
    } else {
        s
    }
}

pub open spec fn all_digits(d: Seq<char>) -> bool {
    forall|i: int| 0 <= i < d.len() ==> is_digit(d[i])
}

/// `u32`'s reading of a decimal string: an optional `+`, then at least one digit, and a
/// value that fits.
pub open spec fn parse_u32(s: Seq<char>) -> Option<u32> {
    let d = digits_part(s);
    if d.len() > 0 && all_digits(d) && digits_value(d) <= u32::MAX {
        Some(digits_value(d) as u32)
    } else {
        None
    }
}

proof fn lemma_digits_value_grows(d: Seq<char>, k: int)
    requires
        0 <= k <= d.len(),
        forall|i: int| 0 <= i < d.len() ==> is_digit(d[i]),
    ensures
        digits_value(d.take(k)) <= digits_value(d),
    decreases d.len() - k,
{
    if k < d.len() {
        lemma_digits_value_grows(d, k + 1);
        assert(d.take(k + 1).drop_last() =~= d.take(k));
    } else {
        assert(d.take(k) =~= d);
    }
}

/// Read `s` as a `u32` as `str::parse::<u32>` does.
pub fn parse_u32_str(s: &str) -> (r: Option<u32>)
    ensures
        r == parse_u32(s@),
{
    let n = s.unicode_len();
    let mut start: usize = 0;
    if n > 0 && s.get_char(0) == '+' {
        start = 1;
    }
    let ghost d = digits_part(s@);
    if start >= n {
        return None;
    }
    let mut i = start;
    while i < n
        invariant
            start <= i <= n,
            n == s@.len(),
            start == n - d.len(),
            d == s@.skip(start as int),
            d == digits_part(s@),
            forall|j: int| start <= j < i ==> is_digit(s@[j]),
        decreases n - i,
    {
        let c = s.get_char(i);
        if !('0' <= c && c <= '9') {
            assert(d[i - start] == s@[i as int]);
            assert(!is_digit(d[i - start]));
            assert(!all_digits(d));
            return None;
        }
        i = i + 1;
    }
    assert forall|j: int| 0 <= j < d.len() implies is_digit(d[j]) by {
        assert(d[j] == s@[j + start]);
    }
    let mut acc: u64 = 0;
    let mut k = start;
    assert(d.take(0) =~= Seq::<char>::empty());
    while k < n
        invariant
            start <= k <= n,
            n == s@.len(),
            start == n - d.len(),
            d == s@.skip(start as int),
            d == digits_part(s@),
            forall|j: int| 0 <= j < d.len() ==> is_digit(d[j]),
            acc == digits_value(d.take(k - start)),
            acc <= u32::MAX,
        decreases n - k,
    {
        let c = s.get_char(k);
        assert(d.take(k + 1 - start).drop_last() =~= d.take(k - start));
        assert(d.take(k + 1 - start).last() == c);
        assert(c == s@[k as int]);
        assert(d[k - start] == s@[k as int]);
        assert(is_digit(c));
        let dv = (c as u32 - '0' as u32) as u64;
        let next = acc * 10 + dv;
        assert(next == digits_value(d.take(k + 1 - start)));
        if next > 0xFFFF_FFFF {
            proof {
                lemma_digits_value_grows(d, k + 1 - start);
            }
            return None;
        }
        acc = next;
        k = k + 1;
    }
    assert(d.take(n - start) =~= d);
    Some(acc as u32)
}

pub open spec fn msg_quoted(prefix: Seq<char>, v: Seq<char>, suffix: Seq<char>) -> Seq<char> {
    prefix + v + suffix
}

/// The kind of a `<skill>` tag with attributes `a`, or the parse error message.
pub open spec fn node_kind_of(a: Seq<(Str, Str)>) -> Result<SpecNodeKind, Seq<char>> {
    match attr_get(a, "define"@) {
        Some(d) => if d == "interface"@ {
            match attr_get(a, "name"@) {
                Some(name) => Ok(
                    SpecNodeKind::InterfaceDefinition {
                        name,
                        extends: attr_get(a, "extends"@),
                        legacy_implements: attr_get(a, "implements"@),
                        description: attr_get(a, "description"@),
                        params: Seq::empty(),
                        return_decls: Seq::empty(),
                        reads: None,
                        writes: None,
                        skill_refs: Seq::empty(),
                        tool_constraints: Seq::empty(),
                    },
                ),
                None => Err("interface definition requires 'name' attribute"@),
            }
        } else if d == "implementation"@ {
            match attr_get(a, "name"@) {
                Some(name) => match attr_get(a, "implements"@) {
                    Some(implements) => Ok(
                        SpecNodeKind::ImplementationDefinition {
                            name,
                            implements,
                            language: attr_get(a, "language"@),
                            framework: attr_get(a, "framework"@),
                            description: attr_get(a, "description"@),
                            nodes: Seq::empty(),
                            skill_refs: Seq::empty(),
                        },
                    ),
                    None => Err("implementation definition requires 'implements' attribute"@),
                },
                None => Err("implementation definition requires 'name' attribute"@),
            }
        } else if d == "contract"@ {
            match attr_get(a, "name"@) {
                Some(name) => Ok(
                    SpecNodeKind::ContractDefinition {
                        name,
                        extends: attr_get(a, "extends"@),
                        version: attr_get(a, "version"@),
                        description: attr_get(a, "description"@),
                        fields: Seq::empty(),
                    },
                ),
                None => Err("contract definition requires 'name' attribute"@),
            }
        } else {
            Err(
                msg_quoted(
                    "unknown define value: '"@,
                    d,
                    "' (expected 'interface', 'implementation', or 'contract')"@,
                ),
            )
        },
        None => {
            let retries = attr_get(a, "retries"@);
            let policy = attr_get(a, "policy"@);
            let on_failure = attr_get(a, "on-failure"@);
            if retries is Some && parse_u32(retries.unwrap()) is None {
                Err(msg_quoted("invalid retries value: '"@, retries.unwrap(), "' (expected unsigned integer)"@))
            } else if policy is Some && spec_policy_of(policy.unwrap()) is None {
                Err(
                    msg_quoted(
                        "invalid policy value: '"@,
                        policy.unwrap(),
                        "' (expected bottom-up, wrapper, or sequential)"@,
                    ),
                )
            } else if on_failure is Some && spec_failure_mode_of(on_failure.unwrap()) is None {
                Err(
                    msg_quoted(
                        "invalid on-failure value: '"@,
                        on_failure.unwrap(),
                        "' (expected halt, skip, or partial)"@,
                    ),
                )
            } else if attr_get(a, "interface"@) is None && attr_get(a, "impl"@) is None && attr_get(
                a,
                "name"@,
            ) is None {
                Err("invocation requires at least one of: interface, impl, or name"@)
            } else {
                Ok(
                    SpecNodeKind::Invocation {
                        interface: attr_get(a, "interface"@),
                        impl_name: attr_get(a, "impl"@),
                        name: attr_get(a, "name"@),
                        language: attr_get(a, "language"@),
                        framework: attr_get(a, "framework"@),
                        retries: match retries {
                            Some(r) => parse_u32(r),
                            None => None,
                        },
                        timeout: attr_get(a, "timeout"@),
                        policy: match policy {
                            Some(p) => spec_policy_of(p),
                            None => None,
                        },
                        on_failure: match on_failure {
                            Some(f) => spec_failure_mode_of(f),
                            None => None,
                        },
                    },
                )
            }
        },
    }
}

/// The cases of a skill's kind: `define="interface"` and `define="contract"` need a `name`,
/// `define="implementation"` a `name` and what it `implements`, and any other `define` is
/// refused; without `define` the skill is an invocation, which needs one of `interface`,
/// `impl` or `name` and well-formed `retries`, `policy` and `on-failure`. Each kind keeps
/// the names it was given.
pub proof fn law_node_kind_cases(a: Seq<(Str, Str)>)
    ensures
        attr_get(a, "define"@) == Some("interface"@) ==> (node_kind_of(a) is Ok <==> attr_get(a, "name"@) is Some),
        attr_get(a, "define"@) == Some("interface"@) && node_kind_of(a) is Ok ==> (node_kind_of(a)->Ok_0
            matches SpecNodeKind::InterfaceDefinition { name, extends, .. } && Some(name) == attr_get(a, "name"@)
            && extends == attr_get(a, "extends"@)),
        attr_get(a, "define"@) == Some("implementation"@) ==> (node_kind_of(a) is Ok <==> (attr_get(a, "name"@) is Some
            && attr_get(a, "implements"@) is Some)),
        attr_get(a, "define"@) == Some("implementation"@) && node_kind_of(a) is Ok ==> (node_kind_of(a)->Ok_0
            matches SpecNodeKind::ImplementationDefinition { name, implements, .. } && Some(name) == attr_get(a, "name"@)
            && Some(implements) == attr_get(a, "implements"@)),
        attr_get(a, "define"@) == Some("contract"@) ==> (node_kind_of(a) is Ok <==> attr_get(a, "name"@) is Some),
        attr_get(a, "define"@) == Some("contract"@) && node_kind_of(a) is Ok ==> (node_kind_of(a)->Ok_0
            matches SpecNodeKind::ContractDefinition { name, .. } && Some(name) == attr_get(a, "name"@)),
        attr_get(a, "define"@) matches Some(d) && d != "interface"@ && d != "implementation"@ && d != "contract"@
            ==> node_kind_of(a) is Err,
        attr_get(a, "define"@) is None ==> (node_kind_of(a) is Ok <==> {
            &&& (attr_get(a, "interface"@) is Some || attr_get(a, "impl"@) is Some || attr_get(a, "name"@) is Some)
            &&& (attr_get(a, "retries"@) matches Some(r) ==> parse_u32(r) is Some)
            &&& (attr_get(a, "policy"@) matches Some(p) ==> spec_policy_of(p) is Some)
            &&& (attr_get(a, "on-failure"@) matches Some(f) ==> spec_failure_mode_of(f) is Some)
        }),
        attr_get(a, "define"@) is None && node_kind_of(a) is Ok ==> (node_kind_of(a)->Ok_0
            matches SpecNodeKind::Invocation { interface, impl_name, name, .. } && interface == attr_get(a, "interface"@)
            && impl_name == attr_get(a, "impl"@) && name == attr_get(a, "name"@)),
{
    reveal_strlit("interface");
    reveal_strlit("implementation");
    reveal_strlit("contract");
    assert("implementation"@.len() != "interface"@.len());
}

/// Determine a skill's kind from its attributes; errors carry the span `offset..offset+20`.
pub fn build_node_kind(attrs: &Vec<(String, String)>, offset: usize) -> (r: Result<NodeKind, ParseError>)
    requires
        offset + 20 <= usize::MAX,
    ensures
        match r {
            Ok(k) => node_kind_of(attrs_view(attrs@)) == Ok::<SpecNodeKind, Seq<char>>(k@),
            Err(e) => node_kind_of(attrs_view(attrs@)) == Err::<SpecNodeKind, Seq<char>>(e.message@)
                && e.span.start == offset && e.span.end == offset + 20,
        },
{
    let ghost a = attrs_view(attrs@);
    match get_attr(attrs, "define") {
        Some(define) => {
            if str_eq(define.as_str(), "interface") {
                match get_attr(attrs, "name") {
                    Some(name) => {
                        let params: Vec<ParamDecl> = Vec::new();
                        let return_decls: Vec<ReturnDecl> = Vec::new();
                        let skill_refs: Vec<SkillRef> = Vec::new();
                        let tool_constraints: Vec<ToolConstraint> = Vec::new();
                        assert(params.deep_view() =~= Seq::<SpecParamDecl>::empty());
                        assert(return_decls.deep_view() =~= Seq::<SpecReturnDecl>::empty());
                        assert(skill_refs.deep_view() =~= Seq::<SpecSkillRef>::empty());
                        assert(tool_constraints.deep_view() =~= Seq::<SpecToolConstraint>::empty());
                        Ok(
                            NodeKind::InterfaceDefinition {
                                name,
                                extends: get_attr(attrs, "extends"),
                                legacy_implements: get_attr(attrs, "implements"),
                                description: get_attr(attrs, "description"),
                                params,
                                return_decls,
                                reads: None,
                                writes: None,
                                skill_refs,
                                tool_constraints,
                            },
                        )
                    },
                    None => Err(
                        error(
                            String::from_str("interface definition requires 'name' attribute"),
                            offset,
                            offset + 20,
                        ),
                    ),
                }
            } else if str_eq(define.as_str(), "implementation") {
                match get_attr(attrs, "name") {
                    Some(name) => match get_attr(attrs, "implements") {
                        Some(implements) => {
                            let nodes: Vec<NodeDecl> = Vec::new();
                            let skill_refs: Vec<SkillRef> = Vec::new();
                            assert(nodes.deep_view() =~= Seq::<SpecNodeDecl>::empty());
                            assert(skill_refs.deep_view() =~= Seq::<SpecSkillRef>::empty());
                            Ok(
                                NodeKind::ImplementationDefinition {
                                    name,
                                    implements,
                                    language: get_attr(attrs, "language"),
                                    framework: get_attr(attrs, "framework"),
                                    description: get_attr(attrs, "description"),
                                    nodes,
                                    skill_refs,
                                },
                            )
                        },
                        None => Err(
                            error(
                                String::from_str(
                                    "implementation definition requires 'implements' attribute",
                                ),
                                offset,
                                offset + 20,
                            ),
                        ),
                    },
                    None => Err(
                        error(
                            String::from_str("implementation definition requires 'name' attribute"),
                            offset,
                            offset + 20,
                        ),
                    ),
                }
            } else if str_eq(define.as_str(), "contract") {
                match get_attr(attrs, "name") {
                    Some(name) => {
                        let fields: Vec<FieldDecl> = Vec::new();
                        assert(FieldDecl::models(fields@) =~= Seq::<SpecFieldDecl>::empty());
                        Ok(
                            NodeKind::ContractDefinition {
                                name,
                                extends: get_attr(attrs, "extends"),
                                version: get_attr(attrs, "version"),
                                description: get_attr(attrs, "description"),
                                fields,
                            },
                        )
                    },
                    None => Err(
                        error(
                            String::from_str("contract definition requires 'name' attribute"),
                            offset,
                            offset + 20,
                        ),
                    ),
                }
            } else {
                Err(
                    error(
                        join3(
                            "unknown define value: '",
                            define.as_str(),
                            "' (expected 'interface', 'implementation', or 'contract')",
                        ),
                        offset,
                        offset + 20,
                    ),
                )
            }
        },
        None => {
            let interface = get_attr(attrs, "interface");
            let impl_name = get_attr(attrs, "impl");
            let name = get_attr(attrs, "name");
            let retries = match get_attr(attrs, "retries") {
                Some(s) => match parse_u32_str(s.as_str()) {
                    Some(v) => Some(v),
                    None => {
                        return Err(
                            error(
                                join3(
                                    "invalid retries value: '",
                                    s.as_str(),
                                    "' (expected unsigned integer)",
                                ),
                                offset,
                                offset + 20,
                            ),
                        );
                    },
                },
                None => None,
            };
            let policy = match get_attr(attrs, "policy") {
                Some(s) => match ExecutionPolicy::parse(s.as_str()) {
                    Some(p) => Some(p),
                    None => {
                        return Err(
                            error(
                                join3(
                                    "invalid policy value: '",
                                    s.as_str(),
                                    "' (expected bottom-up, wrapper, or sequential)",
                                ),
                                offset,
                                offset + 20,
                            ),
                        );
                    },
                },
                None => None,
            };
            let on_failure = match get_attr(attrs, "on-failure") {
                Some(s) => match FailureMode::parse(s.as_str()) {
                    Some(m) => Some(m),
                    None => {
                        return Err(
                            error(
                                join3(
                                    "invalid on-failure value: '",
                                    s.as_str(),
                                    "' (expected halt, skip, or partial)",
                                ),
                                offset,
                                offset + 20,
                            ),
                        );
                    },
                },
                None => None,
            };
            if interface.is_none() && impl_name.is_none() && name.is_none() {
                return Err(
                    error(
                        String::from_str("invocation requires at least one of: interface, impl, or name"),
                        offset,
                        offset + 20,
                    ),
                );
            }
            Ok(
                NodeKind::Invocation {
                    interface,
                    impl_name,
                    name,
                    language: get_attr(attrs, "language"),
                    framework: get_attr(attrs, "framework"),
                    retries,
                    timeout: get_attr(attrs, "timeout"),
                    policy,
                    on_failure,
                },
            )
        },
    }
}

/// The `on-failure` attribute of a directive, or the parse error message.
pub open spec fn on_failure_of(a: Seq<(Str, Str)>) -> Result<Option<FailureMode>, Seq<char>> {
    match attr_get(a, "on-failure"@) {
        Some(s) => match spec_failure_mode_of(s) {
            Some(m) => Ok(Some(m)),
            None => Err(msg_quoted("invalid on-failure value: '"@, s, "' (expected halt, skip, or partial)"@)),
        },
        None => Ok(None),
    }
}

/// Read the `on-failure` attribute; errors carry the span `offset..offset+20`.
pub fn parse_on_failure(attrs: &Vec<(String, String)>, offset: usize) -> (r: Result<Option<FailureMode>, ParseError>)
    requires
        offset + 20 <= usize::MAX,
    ensures
        match r {
            Ok(m) => on_failure_of(attrs_view(attrs@)) == Ok::<Option<FailureMode>, Seq<char>>(m),
            Err(e) => on_failure_of(attrs_view(attrs@)) == Err::<Option<FailureMode>, Seq<char>>(e.message@)
                && e.span.start == offset && e.span.end == offset + 20,
        },
{
    match get_attr(attrs, "on-failure") {
        Some(s) => match FailureMode::parse(s.as_str()) {
            Some(m) => Ok(Some(m)),
            None => Err(
                error(
                    join3("invalid on-failure value: '", s.as_str(), "' (expected halt, skip, or partial)"),
                    offset,
                    offset + 20,
                ),
            ),
        },
        None => Ok(None),
    }
}

/// `true` and `false` as attribute values.
pub open spec fn bool_of(s: Seq<char>) -> Option<bool> {
    if s == "true"@ {
        Some(true)
    } else if s == "false"@ {
        Some(false)
    } else {
        None
    }
}

/// Read `true` or `false`.
pub fn parse_bool(s: &str) -> (r: Option<bool>)
    ensures
        r == bool_of(s@),
{
    if str_eq(s, "true") {
        Some(true)
    } else if str_eq(s, "false") {
        Some(false)
    } else {
        None
    }
}

/// The kind of a directive tag `tag` with attributes `a`, or the parse error message.
pub open spec fn directive_kind_of(tag: TagName, a: Seq<(Str, Str)>) -> Result<SpecDirectiveKind, Seq<char>> {
    match tag {
        TagName::Tool => {
            let name = attr_get(a, "name"@);
            let allow = attr_get(a, "allow"@);
            let deny = attr_get(a, "deny"@);
            if name is None && allow is None && deny is None {
                Err("<tool> requires at least one of: name, allow, or deny"@)
            } else if attr_get(a, "on-failure"@) is Some {
                Err(
                    "<tool> does not support 'on-failure' (it is a scope directive, not an execution unit)"@,
                )
            } else {
                Ok(SpecDirectiveKind::Tool(SpecToolDirective { name, allow, deny }))
            }
        },
        TagName::Session => {
            let isolated = attr_get(a, "isolated"@);
            if isolated is Some && bool_of(isolated.unwrap()) is None {
                Err(
                    msg_quoted(
                        "invalid isolated value: '"@,
                        isolated.unwrap(),
                        "' (expected 'true' or 'false')"@,
                    ),
                )
            } else {
                match on_failure_of(a) {
                    Ok(of) => Ok(
                        SpecDirectiveKind::Session(
                            SpecSessionDirective {
                                name: attr_get(a, "name"@),
                                isolated: match isolated {
                                    Some(v) => bool_of(v),
                                    None => None,
                                },
                                on_failure: of,
                            },
                        ),
                    ),
                    Err(m) => Err(m),
                }
            }
        },
        TagName::Agent => match attr_get(a, "name"@) {
            None => Err("<agent> requires 'name' attribute"@),
            Some(name) => {
                let mode = attr_get(a, "mode"@);
                if mode is Some && spec_agent_mode_of(mode.unwrap()) is None {
                    Err(
                        msg_quoted(
                            "invalid mode value: '"@,
                            mode.unwrap(),
                            "' (expected 'sync' or 'background')"@,
                        ),
                    )
                } else {
                    match on_failure_of(a) {
                        Ok(of) => Ok(
                            SpecDirectiveKind::Agent(
                                SpecAgentDirective {
                                    name,
                                    model: attr_get(a, "model"@),
                                    mode: match mode {
                                        Some(m) => spec_agent_mode_of(m),
                                        None => None,
                                    },
                                    on_failure: of,
                                },
                            ),
                        ),
                        Err(m) => Err(m),
                    }
                }
            },
        },
        _ => Err(msg_quoted("unexpected directive tag: <"@, tag_text(tag), ">"@)),
    }
}

/// Determine a directive's kind from its tag and attributes; errors carry the span
/// `offset..offset+20`.
pub fn build_directive_kind(tag_name: TagName, attrs: &Vec<(String, String)>, offset: usize) -> (r: Result<DirectiveKind, ParseError>)
    requires
        offset + 20 <= usize::MAX,
    ensures
        match r {
            Ok(k) => directive_kind_of(tag_name, attrs_view(attrs@)) == Ok::<SpecDirectiveKind, Seq<char>>(k@),
            Err(e) => directive_kind_of(tag_name, attrs_view(attrs@)) == Err::<SpecDirectiveKind, Seq<char>>(
                e.message@,
            ) && e.span.start == offset && e.span.end == offset + 20,
        },
{
    match tag_name {
        TagName::Tool => {
            let name = get_attr(attrs, "name");
            let allow = get_attr(attrs, "allow");
            let deny = get_attr(attrs, "deny");
            if name.is_none() && allow.is_none() && deny.is_none() {
                return Err(
                    error(
                        String::from_str("<tool> requires at least one of: name, allow, or deny"),
                        offset,
                        offset + 20,
                    ),
                );
            }
            if has_attr(attrs, "on-failure") {
                return Err(
                    error(
                        String::from_str(
                            "<tool> does not support 'on-failure' (it is a scope directive, not an execution unit)",
                        ),
                        offset,
                        offset + 20,
                    ),
                );
            }
            Ok(DirectiveKind::Tool(ToolDirective { name, allow, deny }))
        },
        TagName::Session => {
            let name = get_attr(attrs, "name");
            let isolated = match get_attr(attrs, "isolated") {
                Some(s) => match parse_bool(s.as_str()) {
                    Some(b) => Some(b),
                    None => {
                        return Err(
                            error(
                                join3(
                                    "invalid isolated value: '",
                                    s.as_str(),
                                    "' (expected 'true' or 'false')",
                                ),
                                offset,
                                offset + 20,
                            ),
                        );
                    },
                },
                None => None,
            };
            let on_failure = parse_on_failure(attrs, offset)?;
            Ok(DirectiveKind::Session(SessionDirective { name, isolated, on_failure }))
        },
        TagName::Agent => {
            let name = match get_attr(attrs, "name") {
                Some(n) => n,
                None => {
                    return Err(
                        error(String::from_str("<agent> requires 'name' attribute"), offset, offset + 20),
                    );
                },
            };
            let model = get_attr(attrs, "model");
            let mode = match get_attr(attrs, "mode") {
                Some(s) => match AgentMode::parse(s.as_str()) {
                    Some(m) => Some(m),
                    None => {
                        return Err(
                            error(
                                join3(
                                    "invalid mode value: '",
                                    s.as_str(),
                                    "' (expected 'sync' or 'background')",
                                ),
                                offset,
                                offset + 20,
                            ),
                        );
                    },
                },
                None => None,
            };
            let on_failure = parse_on_failure(attrs, offset)?;
            Ok(DirectiveKind::Agent(AgentDirective { name, model, mode, on_failure }))
        },
        _ => Err(
            error(join3("unexpected directive tag: <", tag_name.as_str(), ">"), offset, offset + 20),
        ),
    }
}

} // verus!
