//! The AML syntax tree, with a mathematical model of every node
//! (strings are modelled as `Seq<char>`, vectors as `Seq` of models).
use vstd::prelude::*;

use crate::text::{byte_len, char_width, str_eq, unicode_len_bytes, utf8_width};

verus! {

/// Source span for error reporting, in byte offsets.
#[derive(Debug, Clone, Copy, PartialEq, Eq, Structural)]
pub struct Span {
    pub start: usize,
    pub end: usize,
}

/// Number of leading characters of `s` whose first byte lies before byte offset `start`.
pub open spec fn chars_before(s: Seq<char>, start: int) -> nat
    decreases s.len(),
{
    if s.len() == 0 {
        0
    } else if byte_len(s.drop_last()) < start {
        s.len()
    } else {
        chars_before(s.drop_last(), start)
    }
}

/// Number of newline characters in `s`.
pub open spec fn count_newlines(s: Seq<char>) -> nat
    decreases s.len(),
{
    if s.len() == 0 {
        0
    } else {
        count_newlines(s.drop_last()) + if s.last() == '\n' { 1nat } else { 0nat }
    }
}

/// Number of characters after the last newline of `s` (all of `s` when it has none).
pub open spec fn chars_after_last_newline(s: Seq<char>) -> nat
    decreases s.len(),
{
    if s.len() == 0 {
        0
    } else if s.last() == '\n' {
        0
    } else {
        chars_after_last_newline(s.drop_last()) + 1
    }
}

/// The 1-based (line, column) of the character that starts at or after byte offset `start`.
pub open spec fn spec_line_col(source: Seq<char>, start: int) -> (int, int) {
    let prefix = source.take(chars_before(source, start) as int);
    (1 + count_newlines(prefix) as int, 1 + chars_after_last_newline(prefix) as int)
}

proof fn lemma_chars_before_monotone(s: Seq<char>, start: int)
    ensures
        chars_before(s, start) <= s.len(),
    decreases s.len(),
{
    if s.len() > 0 {
        lemma_chars_before_monotone(s.drop_last(), start);
    }
}

proof fn lemma_byte_len_prefix_monotone(s: Seq<char>, i: int, j: int)
    requires
        0 <= i <= j <= s.len(),
    ensures
        byte_len(s.take(i)) <= byte_len(s.take(j)),
    decreases j - i,
{
    if i < j {
        lemma_byte_len_prefix_monotone(s, i, j - 1);
        assert(s.take(j).drop_last() =~= s.take(j - 1));
    }
}

/// `chars_before` is the first index whose byte offset is not before `start`.
proof fn lemma_chars_before_char(s: Seq<char>, start: int, k: int)
    requires
        0 <= k < s.len(),
    ensures
        (k < chars_before(s, start)) <==> byte_len(s.take(k)) < start,
    decreases s.len(),
{
    lemma_chars_before_monotone(s, start);
    let n = s.len() as int;
    if byte_len(s.drop_last()) < start {
        lemma_byte_len_prefix_monotone(s, k, n - 1);
        assert(s.take(n - 1) =~= s.drop_last());
    } else if k == n - 1 {
        assert(s.take(k) =~= s.drop_last());
        lemma_chars_before_monotone(s.drop_last(), start);
    } else {
        lemma_chars_before_char(s.drop_last(), start, k);
        assert(s.drop_last().take(k) =~= s.take(k));
    }
}

impl Span {
    pub fn new(start: usize, end: usize) -> (s: Self)
        ensures
            s.start == start,
            s.end == end,
    {
        Span { start, end }
    }

    /// Compute line and column (1-based) from the byte offset `start`.
    pub fn line_col(&self, source: &str) -> (lc: (usize, usize))
        requires
            source@.len() < usize::MAX,
        ensures
            lc.0 as int == spec_line_col(source@, self.start as int).0,
            lc.1 as int == spec_line_col(source@, self.start as int).1,
    {
        let n = source.unicode_len();
        let ghost s = source@;
        let mut line: usize = 1;
        let mut col: usize = 1;
        let mut byte_pos: usize = 0;
        let mut k: usize = 0;
        proof {
            lemma_chars_before_monotone(s, self.start as int);
        }
        while k < n && byte_pos < self.start
            invariant
                n == s.len(),
                s == source@,
                s.len() < usize::MAX,
                0 <= k <= n,
                k <= chars_before(s, self.start as int),
                byte_pos as int == if byte_len(s.take(k as int)) < usize::MAX {
                    byte_len(s.take(k as int)) as int
                } else {
                    usize::MAX as int
                },
                line as int == 1 + count_newlines(s.take(k as int)),
                col as int == 1 + chars_after_last_newline(s.take(k as int)),
                count_newlines(s.take(k as int)) <= k,
                chars_after_last_newline(s.take(k as int)) <= k,
                chars_before(s, self.start as int) <= s.len(),
            decreases n - k,
        {
            proof {
                lemma_chars_before_char(s, self.start as int, k as int);
                assert(s.take(k + 1).drop_last() =~= s.take(k as int));
                unicode_len_bytes(s, (k + 1) as int);
                assert(s.take(k + 1).last() == s[k as int]);
            }
            let ch = source.get_char(k);
            if ch == '\n' {
                line = line + 1;
                col = 1;
            } else {
                col = col + 1;
            }
            byte_pos = byte_pos.saturating_add(char_width(ch));
            k = k + 1;
        }
        proof {
            if k < n {
                lemma_chars_before_char(s, self.start as int, k as int);
            }
        }
        (line, col)
    }
}

/// Execution policy for nested skills.
#[derive(Debug, Clone, Copy, PartialEq, Eq, Structural)]
pub enum ExecutionPolicy {
    BottomUp,
    Wrapper,
    Sequential,
}

/// Failure propagation mode.
#[derive(Debug, Clone, Copy, PartialEq, Eq, Structural)]
pub enum FailureMode {
    Halt,
    Skip,
    Partial,
}

/// Agent execution mode.
#[derive(Debug, Clone, Copy, PartialEq, Eq, Structural)]
pub enum AgentMode {
    Sync,
    Background,
}

/// The kind of a `<node>` declaration in an implementation body.
#[derive(Debug, Clone, Copy, PartialEq, Eq, Structural)]
pub enum NodeType {
    Tool,
    Prompt,
}

pub open spec fn spec_policy_of(s: Seq<char>) -> Option<ExecutionPolicy> {
    if s == "bottom-up"@ {
        Some(ExecutionPolicy::BottomUp)
    } else if s == "wrapper"@ {
        Some(ExecutionPolicy::Wrapper)
    } else if s == "sequential"@ {
        Some(ExecutionPolicy::Sequential)
    } else {
        None
    }
}

pub open spec fn spec_failure_mode_of(s: Seq<char>) -> Option<FailureMode> {
    if s == "halt"@ {
        Some(FailureMode::Halt)
    } else if s == "skip"@ {
        Some(FailureMode::Skip)
    } else if s == "partial"@ {
        Some(FailureMode::Partial)
    } else {
        None
    }
}

pub open spec fn spec_agent_mode_of(s: Seq<char>) -> Option<AgentMode> {
    if s == "sync"@ {
        Some(AgentMode::Sync)
    } else if s == "background"@ {
        Some(AgentMode::Background)
    } else {
        None
    }
}

pub open spec fn spec_node_type_of(s: Seq<char>) -> Option<NodeType> {
    if s == "tool"@ {
        Some(NodeType::Tool)
    } else if s == "prompt"@ {
        Some(NodeType::Prompt)
    } else {
        None
    }
}

impl ExecutionPolicy {
    pub fn parse(s: &str) -> (r: Option<Self>)
        ensures
            r == spec_policy_of(s@),
    {
        if str_eq(s, "bottom-up") {
            Some(ExecutionPolicy::BottomUp)
        } else if str_eq(s, "wrapper") {
            Some(ExecutionPolicy::Wrapper)
        } else if str_eq(s, "sequential") {
            Some(ExecutionPolicy::Sequential)
        } else {
            None
        }
    }

    /// The attribute spelling of the policy.
    pub fn to_string(&self) -> (s: String)
        ensures
            spec_policy_of(s@) == Some(*self),
    {
        proof {
            reveal_strlit("bottom-up");
            assert("bottom-up"@.len() == 9 && "bottom-up"@[0] == 'b');
            reveal_strlit("wrapper");
            assert("wrapper"@.len() == 7 && "wrapper"@[0] == 'w');
            reveal_strlit("sequential");
            assert("sequential"@.len() == 10 && "sequential"@[0] == 's');
            assert("wrapper"@ != "bottom-up"@);
            assert("sequential"@ != "bottom-up"@);
            assert("sequential"@ != "wrapper"@);
        }
        match self {
            ExecutionPolicy::BottomUp => String::from_str("bottom-up"),
            ExecutionPolicy::Wrapper => String::from_str("wrapper"),
            ExecutionPolicy::Sequential => String::from_str("sequential"),
        }
    }
}

impl FailureMode {
    pub fn parse(s: &str) -> (r: Option<Self>)
        ensures
            r == spec_failure_mode_of(s@),
    {
        if str_eq(s, "halt") {
            Some(FailureMode::Halt)
        } else if str_eq(s, "skip") {
            Some(FailureMode::Skip)
        } else if str_eq(s, "partial") {
            Some(FailureMode::Partial)
        } else {
            None
        }
    }

    /// The attribute spelling of the mode.
    pub fn to_string(&self) -> (s: String)
        ensures
            spec_failure_mode_of(s@) == Some(*self),
    {
        proof {
            reveal_strlit("halt");
            assert("halt"@.len() == 4 && "halt"@[0] == 'h');
            reveal_strlit("skip");
            assert("skip"@.len() == 4 && "skip"@[0] == 's');
            reveal_strlit("partial");
            assert("partial"@.len() == 7 && "partial"@[0] == 'p');
            assert("skip"@ != "halt"@);
            assert("partial"@ != "halt"@);
            assert("partial"@ != "skip"@);
        }
        match self {
            FailureMode::Halt => String::from_str("halt"),
            FailureMode::Skip => String::from_str("skip"),
            FailureMode::Partial => String::from_str("partial"),
        }
    }
}

impl AgentMode {
    pub fn parse(s: &str) -> (r: Option<Self>)
        ensures
            r == spec_agent_mode_of(s@),
    {
        if str_eq(s, "sync") {
            Some(AgentMode::Sync)
        } else if str_eq(s, "background") {
            Some(AgentMode::Background)
        } else {
            None
        }
    }

    /// The attribute spelling of the mode.
    pub fn to_string(&self) -> (s: String)
        ensures
            spec_agent_mode_of(s@) == Some(*self),
    {
        proof {
            reveal_strlit("sync");
            assert("sync"@.len() == 4 && "sync"@[0] == 's');
            reveal_strlit("background");
            assert("background"@.len() == 10 && "background"@[0] == 'b');
            assert("background"@ != "sync"@);
        }
        match self {
            AgentMode::Sync => String::from_str("sync"),
            AgentMode::Background => String::from_str("background"),
        }
    }
}

impl NodeType {
    pub fn parse(s: &str) -> (r: Option<Self>)
        ensures
            r == spec_node_type_of(s@),
    {
        if str_eq(s, "tool") {
            Some(NodeType::Tool)
        } else if str_eq(s, "prompt") {
            Some(NodeType::Prompt)
        } else {
            None
        }
    }
}

/// Tool constraint directive.
#[derive(Debug, Clone, PartialEq, Eq)]
pub struct ToolDirective {
    /// Single tool name (shorthand for `allow="<name>"`).
    pub name: Option<String>,
    /// Comma-separated whitelist of allowed tools.
    pub allow: Option<String>,
    /// Comma-separated blacklist of denied tools.
    pub deny: Option<String>,
}

/// Session isolation directive.
#[derive(Debug, Clone, PartialEq, Eq)]
pub struct SessionDirective {
    /// Optional session identifier.
    pub name: Option<String>,
    /// Whether the session is isolated from the parent (default true).
    pub isolated: Option<bool>,
    /// Failure propagation mode for child errors.
    pub on_failure: Option<FailureMode>,
}

/// Subagent delegation directive.
#[derive(Debug, Clone, PartialEq, Eq)]
pub struct AgentDirective {
    /// Agent identifier (required).
    pub name: String,
    /// Optional model override.
    pub model: Option<String>,
    /// Execution mode (default: sync).
    pub mode: Option<AgentMode>,
    /// Failure propagation mode for child errors.
    pub on_failure: Option<FailureMode>,
}

/// The kind of directive tag.
#[derive(Debug, Clone, PartialEq, Eq)]
pub enum DirectiveKind {
    Tool(ToolDirective),
    Session(SessionDirective),
    Agent(AgentDirective),
}

/// A parameter within a skill invocation.
#[derive(Debug, Clone, PartialEq, Eq)]
pub struct Param {
    pub name: String,
    pub value: String,
    pub span: Span,
}

/// A typed `<param>` declaration inside an interface definition.
#[derive(Debug, Clone, PartialEq, Eq)]
pub struct ParamDecl {
    pub name: String,
    pub param_type: Option<String>,
    pub required: Option<bool>,
    pub default: Option<String>,
    pub values: Option<String>,
    pub description: Option<String>,
    pub span: Span,
}

/// A `<return_decls>` declaration inside an interface definition.
#[derive(Debug, Clone, PartialEq, Eq)]
pub struct ReturnDecl {
    pub name: String,
    pub return_type: Option<String>,
    pub values: Option<String>,
    pub description: Option<String>,
    pub span: Span,
}

/// A `<reads>` or `<writes>` declaration: comma-separated glob patterns.
#[derive(Debug, Clone, PartialEq, Eq)]
pub struct IoDecl {
    pub patterns: Vec<String>,
    pub span: Span,
}

/// A `<skill ref="..." role="..."/>` reference inside a definition body.
#[derive(Debug, Clone, PartialEq, Eq)]
pub struct SkillRef {
    pub ref_name: String,
    pub role: Option<String>,
    pub span: Span,
}

/// A `<tool allow="..."/>` or `<tool deny="..."/>` constraint inside an interface body.
#[derive(Debug, Clone, PartialEq, Eq)]
pub struct ToolConstraint {
    pub allow: Vec<String>,
    pub deny: Vec<String>,
    pub span: Span,
}

/// A `<node name="..." type="...">` declaration inside an implementation body.
#[derive(Debug, Clone, PartialEq, Eq)]
pub struct NodeDecl {
    pub name: String,
    pub node_type: NodeType,
    pub tool_use: Option<String>,
    pub description: Option<String>,
    pub span: Span,
}

/// A `<field>` declaration inside a contract definition; fields nest.
#[derive(Debug, PartialEq, Eq)]
pub struct FieldDecl {
    pub name: String,
    pub field_type: Option<String>,
    pub required: bool,
    pub default: Option<String>,
    pub values: Option<String>,
    pub children: Vec<FieldDecl>,
    pub description: Option<String>,
    pub span: Span,
}

/// The type of a skill node, determined by its attributes.
#[derive(Debug, PartialEq, Eq)]
pub enum NodeKind {
    /// An invocation node — resolved and executed at runtime.
    Invocation {
        interface: Option<String>,
        impl_name: Option<String>,
        name: Option<String>,
        language: Option<String>,
        framework: Option<String>,
        retries: Option<u32>,
        timeout: Option<String>,
        policy: Option<ExecutionPolicy>,
        on_failure: Option<FailureMode>,
    },
    /// An interface definition — registered but not executed.
    InterfaceDefinition {
        name: String,
        extends: Option<String>,
        legacy_implements: Option<String>,
        description: Option<String>,
        params: Vec<ParamDecl>,
        return_decls: Vec<ReturnDecl>,
        reads: Option<IoDecl>,
        writes: Option<IoDecl>,
        skill_refs: Vec<SkillRef>,
        tool_constraints: Vec<ToolConstraint>,
    },
    /// An implementation definition — registered but not executed.
    ImplementationDefinition {
        name: String,
        implements: String,
        language: Option<String>,
        framework: Option<String>,
        description: Option<String>,
        nodes: Vec<NodeDecl>,
        skill_refs: Vec<SkillRef>,
    },
    /// A data contract definition — registered but not executed.
    ContractDefinition {
        name: String,
        extends: Option<String>,
        version: Option<String>,
        description: Option<String>,
        fields: Vec<FieldDecl>,
    },
}

/// A node in the AML AST.
#[derive(Debug, PartialEq, Eq)]
pub enum Node {
    /// A skill tag (invocation or definition).
    Skill { kind: NodeKind, params: Vec<Param>, children: Vec<Node>, span: Span },
    /// A directive tag (tool, session, or agent).
    Directive { kind: DirectiveKind, children: Vec<Node>, span: Span },
    /// Literal text content.
    Text(String),
}

/// The root of an AML document.
#[derive(Debug, PartialEq, Eq)]
pub struct Document {
    /// AML version from `<aml version="...">` wrapper, if present.
    pub version: Option<String>,
    pub nodes: Vec<Node>,
}

// ---------------------------------------------------------------------------
// Mathematical models
// ---------------------------------------------------------------------------

pub type Str = Seq<char>;

pub struct SpecToolDirective {
    pub name: Option<Str>,
    pub allow: Option<Str>,
    pub deny: Option<Str>,
}

pub struct SpecSessionDirective {
    pub name: Option<Str>,
    pub isolated: Option<bool>,
    pub on_failure: Option<FailureMode>,
}

pub struct SpecAgentDirective {
    pub name: Str,
    pub model: Option<Str>,
    pub mode: Option<AgentMode>,
    pub on_failure: Option<FailureMode>,
}

pub enum SpecDirectiveKind {
    Tool(SpecToolDirective),
    Session(SpecSessionDirective),
    Agent(SpecAgentDirective),
}

pub struct SpecParam {
    pub name: Str,
    pub value: Str,
    pub span: Span,
}

pub struct SpecParamDecl {
    pub name: Str,
    pub param_type: Option<Str>,
    pub required: Option<bool>,
    pub default: Option<Str>,
    pub values: Option<Str>,
    pub description: Option<Str>,
    pub span: Span,
}

pub struct SpecReturnDecl {
    pub name: Str,
    pub return_type: Option<Str>,
    pub values: Option<Str>,
    pub description: Option<Str>,
    pub span: Span,
}

pub struct SpecIoDecl {
    pub patterns: Seq<Str>,
    pub span: Span,
}

pub struct SpecSkillRef {
    pub ref_name: Str,
    pub role: Option<Str>,
    pub span: Span,
}

pub struct SpecToolConstraint {
    pub allow: Seq<Str>,
    pub deny: Seq<Str>,
    pub span: Span,
}

pub struct SpecNodeDecl {
    pub name: Str,
    pub node_type: NodeType,
    pub tool_use: Option<Str>,
    pub description: Option<Str>,
    pub span: Span,
}

pub struct SpecFieldDecl {
    pub name: Str,
    pub field_type: Option<Str>,
    pub required: bool,
    pub default: Option<Str>,
    pub values: Option<Str>,
    pub children: Seq<SpecFieldDecl>,
    pub description: Option<Str>,
    pub span: Span,
}

pub enum SpecNodeKind {
    Invocation {
        interface: Option<Str>,
        impl_name: Option<Str>,
        name: Option<Str>,
        language: Option<Str>,
        framework: Option<Str>,
        retries: Option<u32>,
        timeout: Option<Str>,
        policy: Option<ExecutionPolicy>,
        on_failure: Option<FailureMode>,
    },
    InterfaceDefinition {
        name: Str,
        extends: Option<Str>,
        legacy_implements: Option<Str>,
        description: Option<Str>,
        params: Seq<SpecParamDecl>,
        return_decls: Seq<SpecReturnDecl>,
        reads: Option<SpecIoDecl>,
        writes: Option<SpecIoDecl>,
        skill_refs: Seq<SpecSkillRef>,
        tool_constraints: Seq<SpecToolConstraint>,
    },
    ImplementationDefinition {
        name: Str,
        implements: Str,
        language: Option<Str>,
        framework: Option<Str>,
        description: Option<Str>,
        nodes: Seq<SpecNodeDecl>,
        skill_refs: Seq<SpecSkillRef>,
    },
    ContractDefinition {
        name: Str,
        extends: Option<Str>,
        version: Option<Str>,
        description: Option<Str>,
        fields: Seq<SpecFieldDecl>,
    },
}

pub enum SpecNode {
    Skill { kind: SpecNodeKind, params: Seq<SpecParam>, children: Seq<SpecNode>, span: Span },
    Directive { kind: SpecDirectiveKind, children: Seq<SpecNode>, span: Span },
    Text(Str),
}

pub struct SpecDocument {
    pub version: Option<Str>,
    pub nodes: Seq<SpecNode>,
}

/// The model of an optional string.
pub open spec fn opt_view(o: Option<String>) -> Option<Str> {
    match o {
        Some(s) => Some(s@),
        None => None,
    }
}

/// The model of a vector of strings.
pub open spec fn strs_view(v: Seq<String>) -> Seq<Str> {
    Seq::new(v.len(), |i: int| v[i]@)
}

impl View for ToolDirective {
    type V = SpecToolDirective;

    open spec fn view(&self) -> SpecToolDirective {
        SpecToolDirective {
            name: opt_view(self.name),
            allow: opt_view(self.allow),
            deny: opt_view(self.deny),
        }
    }
}

impl View for SessionDirective {
    type V = SpecSessionDirective;

    open spec fn view(&self) -> SpecSessionDirective {
        SpecSessionDirective {
            name: opt_view(self.name),
            isolated: self.isolated,
            on_failure: self.on_failure,
        }
    }
}

impl View for AgentDirective {
    type V = SpecAgentDirective;

    open spec fn view(&self) -> SpecAgentDirective {
        SpecAgentDirective {
            name: self.name@,
            model: opt_view(self.model),
            mode: self.mode,
            on_failure: self.on_failure,
        }
    }
}

impl View for DirectiveKind {
    type V = SpecDirectiveKind;

    open spec fn view(&self) -> SpecDirectiveKind {
        match self {
            DirectiveKind::Tool(t) => SpecDirectiveKind::Tool(t@),
            DirectiveKind::Session(s) => SpecDirectiveKind::Session(s@),
            DirectiveKind::Agent(a) => SpecDirectiveKind::Agent(a@),
        }
    }
}

impl View for Param {
    type V = SpecParam;

    open spec fn view(&self) -> SpecParam {
        SpecParam { name: self.name@, value: self.value@, span: self.span }
    }
}

impl DeepView for Param {
    type V = SpecParam;

    open spec fn deep_view(&self) -> SpecParam {
        self@
    }
}

impl View for ParamDecl {
    type V = SpecParamDecl;

    open spec fn view(&self) -> SpecParamDecl {
        SpecParamDecl {
            name: self.name@,
            param_type: opt_view(self.param_type),
            required: self.required,
            default: opt_view(self.default),
            values: opt_view(self.values),
            description: opt_view(self.description),
            span: self.span,
        }
    }
}

impl DeepView for ParamDecl {
    type V = SpecParamDecl;

    open spec fn deep_view(&self) -> SpecParamDecl {
        self@
    }
}

impl View for ReturnDecl {
    type V = SpecReturnDecl;

    open spec fn view(&self) -> SpecReturnDecl {
        SpecReturnDecl {
            name: self.name@,
            return_type: opt_view(self.return_type),
            values: opt_view(self.values),
            description: opt_view(self.description),
            span: self.span,
        }
    }
}

impl DeepView for ReturnDecl {
    type V = SpecReturnDecl;

    open spec fn deep_view(&self) -> SpecReturnDecl {
        self@
    }
}

impl View for IoDecl {
    type V = SpecIoDecl;

    open spec fn view(&self) -> SpecIoDecl {
        SpecIoDecl { patterns: strs_view(self.patterns@), span: self.span }
    }
}

/// The model of an optional I/O declaration.
pub open spec fn opt_io_view(o: Option<IoDecl>) -> Option<SpecIoDecl> {
    match o {
        Some(d) => Some(d@),
        None => None,
    }
}

impl View for SkillRef {
    type V = SpecSkillRef;

    open spec fn view(&self) -> SpecSkillRef {
        SpecSkillRef { ref_name: self.ref_name@, role: opt_view(self.role), span: self.span }
    }
}

impl DeepView for SkillRef {
    type V = SpecSkillRef;

    open spec fn deep_view(&self) -> SpecSkillRef {
        self@
    }
}

impl View for ToolConstraint {
    type V = SpecToolConstraint;

    open spec fn view(&self) -> SpecToolConstraint {
        SpecToolConstraint {
            allow: strs_view(self.allow@),
            deny: strs_view(self.deny@),
            span: self.span,
        }
    }
}

impl DeepView for ToolConstraint {
    type V = SpecToolConstraint;

    open spec fn deep_view(&self) -> SpecToolConstraint {
        self@
    }
}

impl View for NodeDecl {
    type V = SpecNodeDecl;

    open spec fn view(&self) -> SpecNodeDecl {
        SpecNodeDecl {
            name: self.name@,
            node_type: self.node_type,
            tool_use: opt_view(self.tool_use),
            description: opt_view(self.description),
            span: self.span,
        }
    }
}

impl DeepView for NodeDecl {
    type V = SpecNodeDecl;

    open spec fn deep_view(&self) -> SpecNodeDecl {
        self@
    }
}

impl FieldDecl {
    pub open spec fn model(self) -> SpecFieldDecl
        decreases self,
    {
        SpecFieldDecl {
            name: self.name@,
            field_type: opt_view(self.field_type),
            required: self.required,
            default: opt_view(self.default),
            values: opt_view(self.values),
            children: FieldDecl::models(self.children@),
            description: opt_view(self.description),
            span: self.span,
        }
    }

    pub open spec fn models(s: Seq<FieldDecl>) -> Seq<SpecFieldDecl>
        decreases s,
    {
        Seq::new(
            s.len(),
            |i: int|
                if 0 <= i < s.len() {
                    s[i].model()
                } else {
                    arbitrary()
                },
        )
    }
}

impl View for FieldDecl {
    type V = SpecFieldDecl;

    open spec fn view(&self) -> SpecFieldDecl {
        self.model()
    }
}

impl View for NodeKind {
    type V = SpecNodeKind;

    open spec fn view(&self) -> SpecNodeKind {
        match self {
            NodeKind::Invocation {
                interface,
                impl_name,
                name,
                language,
                framework,
                retries,
                timeout,
                policy,
                on_failure,
            } => SpecNodeKind::Invocation {
                interface: opt_view(*interface),
                impl_name: opt_view(*impl_name),
                name: opt_view(*name),
                language: opt_view(*language),
                framework: opt_view(*framework),
                retries: *retries,
                timeout: opt_view(*timeout),
                policy: *policy,
                on_failure: *on_failure,
            },
            NodeKind::InterfaceDefinition {
                name,
                extends,
                legacy_implements,
                description,
                params,
                return_decls,
                reads,
                writes,
                skill_refs,
                tool_constraints,
            } => SpecNodeKind::InterfaceDefinition {
                name: name@,
                extends: opt_view(*extends),
                legacy_implements: opt_view(*legacy_implements),
                description: opt_view(*description),
                params: params.deep_view(),
                return_decls: return_decls.deep_view(),
                reads: opt_io_view(*reads),
                writes: opt_io_view(*writes),
                skill_refs: skill_refs.deep_view(),
                tool_constraints: tool_constraints.deep_view(),
            },
            NodeKind::ImplementationDefinition {
                name,
                implements,
                language,
                framework,
                description,
                nodes,
                skill_refs,
            } => SpecNodeKind::ImplementationDefinition {
                name: name@,
                implements: implements@,
                language: opt_view(*language),
                framework: opt_view(*framework),
                description: opt_view(*description),
                nodes: nodes.deep_view(),
                skill_refs: skill_refs.deep_view(),
            },
            NodeKind::ContractDefinition { name, extends, version, description, fields } =>
                SpecNodeKind::ContractDefinition {
                name: name@,
                extends: opt_view(*extends),
                version: opt_view(*version),
                description: opt_view(*description),
                fields: FieldDecl::models(fields@),
            },
        }
    }
}

impl Node {
    pub open spec fn model(self) -> SpecNode
        decreases self,
    {
        match self {
            Node::Skill { kind, params, children, span } => SpecNode::Skill {
                kind: kind@,
                params: params.deep_view(),
                children: Node::models(children@),
                span,
            },
            Node::Directive { kind, children, span } => SpecNode::Directive {
                kind: kind@,
                children: Node::models(children@),
                span,
            },
            Node::Text(t) => SpecNode::Text(t@),
        }
    }

    pub open spec fn models(s: Seq<Node>) -> Seq<SpecNode>
        decreases s,
    {
        Seq::new(
            s.len(),
            |i: int|
                if 0 <= i < s.len() {
                    s[i].model()
                } else {
                    arbitrary()
                },
        )
    }
}

impl View for Node {
    type V = SpecNode;

    open spec fn view(&self) -> SpecNode {
        self.model()
    }
}

impl View for Document {
    type V = SpecDocument;

    open spec fn view(&self) -> SpecDocument {
        SpecDocument { version: opt_view(self.version), nodes: Node::models(self.nodes@) }
    }
}

// ---------------------------------------------------------------------------
// Deep copies with their models preserved
// ---------------------------------------------------------------------------

/// A copy of an optional string.
pub fn dup_opt(o: &Option<String>) -> (r: Option<String>)
    ensures
        opt_view(r) == opt_view(*o),
{
    match o {
        Some(s) => Some(s.clone()),
        None => None,
    }
}

/// A copy of a vector of strings.
pub fn dup_strs(v: &Vec<String>) -> (r: Vec<String>)
    ensures
        strs_view(r@) == strs_view(v@),
{
    let mut r: Vec<String> = Vec::new();
    let mut i: usize = 0;
    while i < v.len()
        invariant
            0 <= i <= v@.len(),
            r@.len() == i,
            forall|j: int| 0 <= j < i ==> r@[j]@ == v@[j]@,
        decreases v@.len() - i,
    {
        r.push(v[i].clone());
        i = i + 1;
    }
    assert(strs_view(r@) =~= strs_view(v@));
    r
}

impl ToolDirective {
    pub fn duplicate(&self) -> (r: Self)
        ensures
            r@ == self@,
    {
        ToolDirective {
            name: dup_opt(&self.name),
            allow: dup_opt(&self.allow),
            deny: dup_opt(&self.deny),
        }
    }
}

impl SessionDirective {
    pub fn duplicate(&self) -> (r: Self)
        ensures
            r@ == self@,
    {
        SessionDirective {
            name: dup_opt(&self.name),
            isolated: self.isolated,
            on_failure: self.on_failure,
        }
    }
}

impl AgentDirective {
    pub fn duplicate(&self) -> (r: Self)
        ensures
            r@ == self@,
    {
        AgentDirective {
            name: self.name.clone(),
            model: dup_opt(&self.model),
            mode: self.mode,
            on_failure: self.on_failure,
        }
    }
}

impl DirectiveKind {
    pub fn duplicate(&self) -> (r: Self)
        ensures
            r@ == self@,
    {
        match self {
            DirectiveKind::Tool(t) => DirectiveKind::Tool(t.duplicate()),
            DirectiveKind::Session(s) => DirectiveKind::Session(s.duplicate()),
            DirectiveKind::Agent(a) => DirectiveKind::Agent(a.duplicate()),
        }
    }
}

impl Param {
    pub fn duplicate(&self) -> (r: Self)
        ensures
            r@ == self@,
    {
        Param { name: self.name.clone(), value: self.value.clone(), span: self.span }
    }
}

impl ParamDecl {
    pub fn duplicate(&self) -> (r: Self)
        ensures
            r@ == self@,
    {
        ParamDecl {
            name: self.name.clone(),
            param_type: dup_opt(&self.param_type),
            required: self.required,
            default: dup_opt(&self.default),
            values: dup_opt(&self.values),
            description: dup_opt(&self.description),
            span: self.span,
        }
    }
}

impl ReturnDecl {
    pub fn duplicate(&self) -> (r: Self)
        ensures
            r@ == self@,
    {
        ReturnDecl {
            name: self.name.clone(),
            return_type: dup_opt(&self.return_type),
            values: dup_opt(&self.values),
            description: dup_opt(&self.description),
            span: self.span,
        }
    }
}

impl IoDecl {
    pub fn duplicate(&self) -> (r: Self)
        ensures
            r@ == self@,
    {
        IoDecl { patterns: dup_strs(&self.patterns), span: self.span }
    }
}

/// A copy of an optional I/O declaration.
pub fn dup_opt_io(o: &Option<IoDecl>) -> (r: Option<IoDecl>)
    ensures
        opt_io_view(r) == opt_io_view(*o),
{
    match o {
        Some(d) => Some(d.duplicate()),
        None => None,
    }
}

impl SkillRef {
    pub fn duplicate(&self) -> (r: Self)
        ensures
            r@ == self@,
    {
        SkillRef { ref_name: self.ref_name.clone(), role: dup_opt(&self.role), span: self.span }
    }
}

impl ToolConstraint {
    pub fn duplicate(&self) -> (r: Self)
        ensures
            r@ == self@,
    {
        ToolConstraint { allow: dup_strs(&self.allow), deny: dup_strs(&self.deny), span: self.span }
    }
}

impl NodeDecl {
    pub fn duplicate(&self) -> (r: Self)
        ensures
            r@ == self@,
    {
        NodeDecl {
            name: self.name.clone(),
            node_type: self.node_type,
            tool_use: dup_opt(&self.tool_use),
            description: dup_opt(&self.description),
            span: self.span,
        }
    }
}

/// A copy of a vector of parameters.
pub fn dup_params(v: &Vec<Param>) -> (r: Vec<Param>)
    ensures
        r.deep_view() == v.deep_view(),
{
    let mut r: Vec<Param> = Vec::new();
    let mut i: usize = 0;
    while i < v.len()
        invariant
            0 <= i <= v@.len(),
            r@.len() == i,
            forall|j: int| 0 <= j < i ==> r@[j]@ == v@[j]@,
        decreases v@.len() - i,
    {
        r.push(v[i].duplicate());
        i = i + 1;
    }
    assert(r.deep_view() =~= v.deep_view());
    r
}

/// A copy of a vector of parameter declarations.
pub fn dup_param_decls(v: &Vec<ParamDecl>) -> (r: Vec<ParamDecl>)
    ensures
        r.deep_view() == v.deep_view(),
{
    let mut r: Vec<ParamDecl> = Vec::new();
    let mut i: usize = 0;
    while i < v.len()
        invariant
            0 <= i <= v@.len(),
            r@.len() == i,
            forall|j: int| 0 <= j < i ==> r@[j]@ == v@[j]@,
        decreases v@.len() - i,
    {
        r.push(v[i].duplicate());
        i = i + 1;
    }
    assert(r.deep_view() =~= v.deep_view());
    r
}

/// A copy of a vector of return declarations.
pub fn dup_return_decls(v: &Vec<ReturnDecl>) -> (r: Vec<ReturnDecl>)
    ensures
        r.deep_view() == v.deep_view(),
{
    let mut r: Vec<ReturnDecl> = Vec::new();
    let mut i: usize = 0;
    while i < v.len()
        invariant
            0 <= i <= v@.len(),
            r@.len() == i,
            forall|j: int| 0 <= j < i ==> r@[j]@ == v@[j]@,
        decreases v@.len() - i,
    {
        r.push(v[i].duplicate());
        i = i + 1;
    }
    assert(r.deep_view() =~= v.deep_view());
    r
}

/// A copy of a vector of skill references.
pub fn dup_skill_refs(v: &Vec<SkillRef>) -> (r: Vec<SkillRef>)
    ensures
        r.deep_view() == v.deep_view(),
{
    let mut r: Vec<SkillRef> = Vec::new();
    let mut i: usize = 0;
    while i < v.len()
        invariant
            0 <= i <= v@.len(),
            r@.len() == i,
            forall|j: int| 0 <= j < i ==> r@[j]@ == v@[j]@,
        decreases v@.len() - i,
    {
        r.push(v[i].duplicate());
        i = i + 1;
    }
    assert(r.deep_view() =~= v.deep_view());
    r
}

/// A copy of a vector of tool constraints.
pub fn dup_tool_constraints(v: &Vec<ToolConstraint>) -> (r: Vec<ToolConstraint>)
    ensures
        r.deep_view() == v.deep_view(),
{
    let mut r: Vec<ToolConstraint> = Vec::new();
    let mut i: usize = 0;
    while i < v.len()
        invariant
            0 <= i <= v@.len(),
            r@.len() == i,
            forall|j: int| 0 <= j < i ==> r@[j]@ == v@[j]@,
        decreases v@.len() - i,
    {
        r.push(v[i].duplicate());
        i = i + 1;
    }
    assert(r.deep_view() =~= v.deep_view());
    r
}

/// A copy of a vector of node declarations.
pub fn dup_node_decls(v: &Vec<NodeDecl>) -> (r: Vec<NodeDecl>)
    ensures
        r.deep_view() == v.deep_view(),
{
    let mut r: Vec<NodeDecl> = Vec::new();
    let mut i: usize = 0;
    while i < v.len()
        invariant
            0 <= i <= v@.len(),
            r@.len() == i,
            forall|j: int| 0 <= j < i ==> r@[j]@ == v@[j]@,
        decreases v@.len() - i,
    {
        r.push(v[i].duplicate());
        i = i + 1;
    }
    assert(r.deep_view() =~= v.deep_view());
    r
}

impl FieldDecl {
    pub fn duplicate(&self) -> (r: Self)
        ensures
            r@ == self@,
        decreases self,
    {
        let mut children: Vec<FieldDecl> = Vec::new();
        let mut i: usize = 0;
        while i < self.children.len()
            invariant
                0 <= i <= self.children@.len(),
                children@.len() == i,
                forall|j: int| 0 <= j < i ==> children@[j]@ == self.children@[j]@,
            decreases self.children@.len() - i,
        {
            children.push(self.children[i].duplicate());
            i = i + 1;
        }
        assert(FieldDecl::models(children@) =~= FieldDecl::models(self.children@));
        FieldDecl {
            name: self.name.clone(),
            field_type: dup_opt(&self.field_type),
            required: self.required,
            default: dup_opt(&self.default),
            values: dup_opt(&self.values),
            children,
            description: dup_opt(&self.description),
            span: self.span,
        }
    }
}

/// A copy of a vector of field declarations.
pub fn dup_field_decls(v: &Vec<FieldDecl>) -> (r: Vec<FieldDecl>)
    ensures
        FieldDecl::models(r@) == FieldDecl::models(v@),
{
    let mut r: Vec<FieldDecl> = Vec::new();
    let mut i: usize = 0;
    while i < v.len()
        invariant
            0 <= i <= v@.len(),
            r@.len() == i,
            forall|j: int| 0 <= j < i ==> r@[j]@ == v@[j]@,
        decreases v@.len() - i,
    {
        r.push(v[i].duplicate());
        i = i + 1;
    }
    assert(FieldDecl::models(r@) =~= FieldDecl::models(v@));
    r
}

impl NodeKind {
    pub fn duplicate(&self) -> (r: Self)
        ensures
            r@ == self@,
    {
        match self {
            NodeKind::Invocation {
                interface,
                impl_name,
                name,
                language,
                framework,
                retries,
                timeout,
                policy,
                on_failure,
            } => NodeKind::Invocation {
                interface: dup_opt(interface),
                impl_name: dup_opt(impl_name),
                name: dup_opt(name),
                language: dup_opt(language),
                framework: dup_opt(framework),
                retries: *retries,
                timeout: dup_opt(timeout),
                policy: *policy,
                on_failure: *on_failure,
            },
            NodeKind::InterfaceDefinition {
                name,
                extends,
                legacy_implements,
                description,
                params,
                return_decls,
                reads,
                writes,
                skill_refs,
                tool_constraints,
            } => NodeKind::InterfaceDefinition {
                name: name.clone(),
                extends: dup_opt(extends),
                legacy_implements: dup_opt(legacy_implements),
                description: dup_opt(description),
                params: dup_param_decls(params),
                return_decls: dup_return_decls(return_decls),
                reads: dup_opt_io(reads),
                writes: dup_opt_io(writes),
                skill_refs: dup_skill_refs(skill_refs),
                tool_constraints: dup_tool_constraints(tool_constraints),
            },
            NodeKind::ImplementationDefinition {
                name,
                implements,
                language,
                framework,
                description,
                nodes,
                skill_refs,
            } => NodeKind::ImplementationDefinition {
                name: name.clone(),
                implements: implements.clone(),
                language: dup_opt(language),
                framework: dup_opt(framework),
                description: dup_opt(description),
                nodes: dup_node_decls(nodes),
                skill_refs: dup_skill_refs(skill_refs),
            },
            NodeKind::ContractDefinition { name, extends, version, description, fields } =>
                NodeKind::ContractDefinition {
                name: name.clone(),
                extends: dup_opt(extends),
                version: dup_opt(version),
                description: dup_opt(description),
                fields: dup_field_decls(fields),
            },
        }
    }
}

impl Node {
    pub fn duplicate(&self) -> (r: Self)
        ensures
            r@ == self@,
        decreases self,
    {
        match self {
            Node::Skill { kind, params, children, span } => Node::Skill {
                kind: kind.duplicate(),
                params: dup_params(params),
                children: Node::dup_children(children),
                span: *span,
            },
            Node::Directive { kind, children, span } => Node::Directive {
                kind: kind.duplicate(),
                children: Node::dup_children(children),
                span: *span,
            },
            Node::Text(t) => Node::Text(t.clone()),
        }
    }

    fn dup_children(v: &Vec<Node>) -> (r: Vec<Node>)
        ensures
            Node::models(r@) == Node::models(v@),
        decreases v,
    {
        let mut r: Vec<Node> = Vec::new();
        let mut i: usize = 0;
        while i < v.len()
            invariant
                0 <= i <= v@.len(),
                r@.len() == i,
                forall|j: int| 0 <= j < i ==> r@[j]@ == v@[j]@,
            decreases v@.len() - i,
        {
            r.push(v[i].duplicate());
            i = i + 1;
        }
        assert(Node::models(r@) =~= Node::models(v@));
        r
    }
}

impl Clone for FieldDecl {
    fn clone(&self) -> (r: Self)
        ensures
            r@ == self@,
    {
        self.duplicate()
    }
}

impl Clone for NodeKind {
    fn clone(&self) -> (r: Self)
        ensures
            r@ == self@,
    {
        self.duplicate()
    }
}

impl Clone for Node {
    fn clone(&self) -> (r: Self)
        ensures
            r@ == self@,
    {
        self.duplicate()
    }
}

impl Clone for Document {
    fn clone(&self) -> (r: Self)
        ensures
            r@ == self@,
    {
        Document { version: dup_opt(&self.version), nodes: Node::dup_children(&self.nodes) }
    }
}

// ---------------------------------------------------------------------------
// Node and document queries
// ---------------------------------------------------------------------------

impl SpecNode {
    pub open spec fn is_definition(self) -> bool {
        match self {
            SpecNode::Skill { kind, .. } => match kind {
                SpecNodeKind::InterfaceDefinition { .. } => true,
                SpecNodeKind::ImplementationDefinition { .. } => true,
                _ => false,
            },
            _ => false,
        }
    }

    pub open spec fn is_directive(self) -> bool {
        self is Directive
    }

    pub open spec fn is_skill(self) -> bool {
        self is Skill
    }

    pub open spec fn is_invocation(self) -> bool {
        match self {
            SpecNode::Skill { kind, .. } => kind is Invocation,
            _ => false,
        }
    }

    pub open spec fn span(self) -> Option<Span> {
        match self {
            SpecNode::Skill { span, .. } => Some(span),
            SpecNode::Directive { span, .. } => Some(span),
            SpecNode::Text(_) => None,
        }
    }
}

/// The value of the last parameter named `name` among `ps`.
pub open spec fn last_param_value(ps: Seq<SpecParam>, name: Str) -> Option<Str>
    decreases ps.len(),
{
    if ps.len() == 0 {
        None
    } else if ps.last().name == name {
        Some(ps.last().value)
    } else {
        last_param_value(ps.drop_last(), name)
    }
}

/// The name-to-value map of a parameter list (a later parameter overrides an earlier one),
/// as a list of distinct names with their values.
pub open spec fn is_param_map(r: Seq<(Str, Str)>, ps: Seq<SpecParam>) -> bool {
    &&& forall|i: int, j: int| 0 <= i < j < r.len() ==> r[i].0 != r[j].0
    &&& forall|i: int| 0 <= i < r.len() ==> last_param_value(ps, r[i].0) == Some(r[i].1)
    &&& forall|k: Str| last_param_value(ps, k) is Some ==> exists|i: int| 0 <= i < r.len() && r[i].0 == k
}

/// The model of a list of string pairs.
pub open spec fn pairs_view(v: Seq<(String, String)>) -> Seq<(Str, Str)> {
    Seq::new(v.len(), |i: int| (v[i].0@, v[i].1@))
}

proof fn lemma_last_param_value_some(ps: Seq<SpecParam>, k: Str)
    requires
        last_param_value(ps, k) is Some,
    ensures
        exists|i: int| 0 <= i < ps.len() && ps[i].name == k,
    decreases ps.len(),
{
    if ps.last().name != k {
        lemma_last_param_value_some(ps.drop_last(), k);
        let i = choose|i: int| 0 <= i < ps.drop_last().len() && ps.drop_last()[i].name == k;
        assert(ps[i].name == k);
    }
}

/// The parameters as a map from name to value: each name once, with the value of its
/// last occurrence.
pub fn params_to_map(params: &[Param]) -> (r: Vec<(String, String)>)
    ensures
        is_param_map(pairs_view(r@), params@.map_values(|p: Param| p@)),
{
    let ghost ps = params@.map_values(|p: Param| p@);
    let mut r: Vec<(String, String)> = Vec::new();
    let mut i: usize = 0;
    while i < params.len()
        invariant
            0 <= i <= params@.len(),
            ps == params@.map_values(|p: Param| p@),
            is_param_map(pairs_view(r@), ps.take(i as int)),
        decreases params@.len() - i,
    {
        let ghost old_r = pairs_view(r@);
        let ghost pre = ps.take(i as int);
        let ghost post = ps.take(i + 1);
        assert(post.drop_last() =~= pre);
        assert(post.last() == params@[i as int]@);
        let p = &params[i];
        let mut j: usize = 0;
        while j < r.len() && !str_eq(r[j].0.as_str(), p.name.as_str())
            invariant
                0 <= j <= r@.len(),
                pairs_view(r@) == old_r,
                forall|m: int| 0 <= m < j ==> old_r[m].0 != p.name@,
            decreases r@.len() - j,
        {
            j = j + 1;
        }
        let found = j < r.len();
        if found {
            r.set(j, (p.name.clone(), p.value.clone()));
            proof {
                let nr = pairs_view(r@);
                assert(old_r[j as int].0 == p.name@);
                assert(nr[j as int] == (p.name@, p.value@));
                assert forall|a: int| 0 <= a < nr.len() implies last_param_value(post, nr[a].0)
                    == Some(nr[a].1) by {
                    if a != j {
                        assert(nr[a] == old_r[a]);
                        assert(old_r[a].0 != old_r[j as int].0);
                        assert(last_param_value(post, nr[a].0) == last_param_value(pre, nr[a].0));
                    }
                }
                assert forall|k: Str| last_param_value(post, k) is Some implies exists|a: int|
                    0 <= a < nr.len() && nr[a].0 == k by {
                    if k != p.name@ {
                        assert(last_param_value(post, k) == last_param_value(pre, k));
                        let a = choose|a: int| 0 <= a < old_r.len() && old_r[a].0 == k;
                        assert(nr[a] == old_r[a]);
                    } else {
                        assert(nr[j as int].0 == k);
                    }
                }
                assert forall|a: int, b: int| 0 <= a < b < nr.len() implies nr[a].0 != nr[b].0 by {
                    assert(nr[a].0 == old_r[a].0);
                    assert(nr[b].0 == old_r[b].0);
                }
            }
        } else {
            r.push((p.name.clone(), p.value.clone()));
            proof {
                let nr = pairs_view(r@);
                assert(nr =~= old_r.push((p.name@, p.value@)));
                assert forall|a: int| 0 <= a < nr.len() implies last_param_value(post, nr[a].0)
                    == Some(nr[a].1) by {
                    if a < old_r.len() {
                        assert(nr[a] == old_r[a]);
                        assert(last_param_value(post, nr[a].0) == last_param_value(pre, nr[a].0));
                    }
                }
                assert forall|k: Str| last_param_value(post, k) is Some implies exists|a: int|
                    0 <= a < nr.len() && nr[a].0 == k by {
                    if k != p.name@ {
                        assert(last_param_value(post, k) == last_param_value(pre, k));
                        let a = choose|a: int| 0 <= a < old_r.len() && old_r[a].0 == k;
                        assert(nr[a] == old_r[a]);
                    } else {
                        assert(nr[old_r.len() as int].0 == k);
                    }
                }
            }
        }
        i = i + 1;
    }
    assert(ps.take(params@.len() as int) =~= ps);
    r
}

impl Node {
    /// Returns true if this is a definition node (non-executable).
    pub fn is_definition(&self) -> (b: bool)
        ensures
            b == self@.is_definition(),
    {
        match self {
            Node::Skill { kind, .. } => match kind {
                NodeKind::InterfaceDefinition { .. } => true,
                NodeKind::ImplementationDefinition { .. } => true,
                _ => false,
            },
            _ => false,
        }
    }

    /// Returns true if this is a directive node.
    pub fn is_directive(&self) -> (b: bool)
        ensures
            b == self@.is_directive(),
    {
        match self {
            Node::Directive { .. } => true,
            _ => false,
        }
    }

    /// Returns true if this is a skill invocation node.
    pub fn is_invocation(&self) -> (b: bool)
        ensures
            b == self@.is_invocation(),
    {
        match self {
            Node::Skill { kind: NodeKind::Invocation { .. }, .. } => true,
            _ => false,
        }
    }

    /// Returns the span if this is a Skill or Directive node.
    pub fn span(&self) -> (r: Option<Span>)
        ensures
            r == self@.span(),
    {
        match self {
            Node::Skill { span, .. } => Some(*span),
            Node::Directive { span, .. } => Some(*span),
            Node::Text(_) => None,
        }
    }

    /// Returns parameters if this is a Skill node.
    pub fn params(&self) -> (r: Option<&[Param]>)
        ensures
            match self {
                Node::Skill { params, .. } => r matches Some(p) && p@ == params@,
                _ => r is None,
            },
    {
        match self {
            Node::Skill { params, .. } => Some(params.as_slice()),
            _ => None,
        }
    }

    /// Returns the parameters as a name-to-value map (empty for non-skill nodes).
    pub fn params_map(&self) -> (r: Vec<(String, String)>)
        ensures
            match self {
                Node::Skill { params, .. } => is_param_map(
                    pairs_view(r@),
                    params@.map_values(|p: Param| p@),
                ),
                _ => r@.len() == 0,
            },
    {
        match self {
            Node::Skill { params, .. } => params_to_map(params.as_slice()),
            _ => Vec::new(),
        }
    }
}

impl Document {
    pub fn new(nodes: Vec<Node>) -> (d: Self)
        ensures
            d.version is None,
            d.nodes@ == nodes@,
    {
        Document { version: None, nodes }
    }

    pub fn with_version(version: String, nodes: Vec<Node>) -> (d: Self)
        ensures
            d.version == Some(version),
            d.nodes@ == nodes@,
    {
        Document { version: Some(version), nodes }
    }

    /// All skill nodes (flat, non-recursive).
    pub fn skill_nodes(&self) -> (r: Vec<&Node>)
        ensures
            r@.map_values(|n: &Node| *n) == self.nodes@.filter(|n: Node| n@.is_skill()),
    {
        let r = self.filter_nodes(0);
        assert((|n: Node| Document::selects(0, n@)) =~= (|n: Node| n@.is_skill()));
        r
    }

    /// All definition nodes (flat, non-recursive).
    pub fn definitions(&self) -> (r: Vec<&Node>)
        ensures
            r@.map_values(|n: &Node| *n) == self.nodes@.filter(|n: Node| n@.is_definition()),
    {
        let r = self.filter_nodes(1);
        assert((|n: Node| Document::selects(1, n@)) =~= (|n: Node| n@.is_definition()));
        r
    }

    /// All directive nodes (flat, non-recursive).
    pub fn directives(&self) -> (r: Vec<&Node>)
        ensures
            r@.map_values(|n: &Node| *n) == self.nodes@.filter(|n: Node| n@.is_directive()),
    {
        let r = self.filter_nodes(2);
        assert((|n: Node| Document::selects(2, n@)) =~= (|n: Node| n@.is_directive()));
        r
    }

    /// All invocation nodes (flat, non-recursive).
    pub fn invocations(&self) -> (r: Vec<&Node>)
        ensures
            r@.map_values(|n: &Node| *n) == self.nodes@.filter(|n: Node| n@.is_invocation()),
    {
        let r = self.filter_nodes(3);
        assert((|n: Node| Document::selects(3, n@)) =~= (|n: Node| n@.is_invocation()));
        r
    }

    spec fn selects(which: u8, n: SpecNode) -> bool {
        if which == 0 {
            n.is_skill()
        } else if which == 1 {
            n.is_definition()
        } else if which == 2 {
            n.is_directive()
        } else {
            n.is_invocation()
        }
    }

    fn node_selected(which: u8, n: &Node) -> (b: bool)
        ensures
            b == Document::selects(which, n@),
    {
        if which == 0 {
            match n {
                Node::Skill { .. } => true,
                _ => false,
            }
        } else if which == 1 {
            n.is_definition()
        } else if which == 2 {
            n.is_directive()
        } else {
            n.is_invocation()
        }
    }

    fn filter_nodes(&self, which: u8) -> (r: Vec<&Node>)
        ensures
            r@.map_values(|n: &Node| *n) == self.nodes@.filter(|n: Node| Document::selects(which, n@)),
    {
        let ghost pred = |n: Node| Document::selects(which, n@);
        let mut r: Vec<&Node> = Vec::new();
        let mut i: usize = 0;
        while i < self.nodes.len()
            invariant
                0 <= i <= self.nodes@.len(),
                pred == (|n: Node| Document::selects(which, n@)),
                r@.map_values(|n: &Node| *n) == self.nodes@.take(i as int).filter(pred),
            decreases self.nodes@.len() - i,
        {
            let ghost old = r@.map_values(|n: &Node| *n);
            proof {
                reveal_with_fuel(Seq::filter, 1);
                assert(self.nodes@.take(i + 1).drop_last() =~= self.nodes@.take(i as int));
            }
            let n = &self.nodes[i];
            if Document::node_selected(which, n) {
                r.push(n);
                assert(r@.map_values(|n: &Node| *n) =~= old.push(*n));
            }
            i = i + 1;
        }
        assert(self.nodes@.take(self.nodes@.len() as int) =~= self.nodes@);
        r
    }
}

} // verus!
