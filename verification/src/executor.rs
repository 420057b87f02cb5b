//! Execution of a document: definitions produce nothing, text passes through, directives
//! pass their children's output through, and invocations are resolved and handed to the
//! handler registered for the implementation, with retries and failure modes.
use vstd::prelude::*;

use crate::ast::{
    is_param_map, last_param_value, pairs_view, params_to_map, DirectiveKind, Document, ExecutionPolicy,
    FailureMode, Node, NodeKind, Param, SpecNode, SpecNodeKind, SpecParam, Str,
};
use crate::registry::SkillRegistry;
use crate::registry::SpecRegistry;
use crate::resolver::{resolution, resolve, ResolutionHints, ResolveError};
use crate::resolver::opt_str_view;
use crate::text::{join3, str_eq};

verus! {

/// Status of a skill execution.
#[derive(Debug, Clone, Copy, PartialEq, Eq, Structural)]
pub enum SkillStatus {
    Success,
    Failed,
    Skipped,
    Partial,
}

/// The result of executing a single skill.
#[derive(Debug, Clone)]
pub struct SkillResult {
    /// The text output to inject in place of the skill tag.
    pub text: String,
    /// Structured metadata (optional side-channel), as name and value pairs.
    pub metadata: Vec<(String, String)>,
    /// Execution status.
    pub status: SkillStatus,
}

/// Execution error types.
#[derive(Debug)]
pub enum ExecutionError {
    ResolutionFailed(ResolveError),
    HandlerError { skill: String, message: String },
    RetriesExhausted { skill: String, attempts: u32 },
    ChildFailed { skill: String, child_error: Box<ExecutionError> },
}

/// A skill handler: receives the resolved implementation name, the parameters and the
/// scope content (the children as text), and returns the skill result or an error message.
pub trait SkillHandler {
    /// Whether `r` is an answer the handler may give when called for `impl_name` with the
    /// parameters `params` (name to value) and the scope `scope`. A handler that says
    /// nothing of its answers may give any.
    open spec fn may_answer(&self, impl_name: Str, params: Map<Str, Str>, scope: Str, r: Result<SkillResult, String>) -> bool {
        true
    }

    fn handle(&self, impl_name: &str, params: &Vec<(String, String)>, scope: &str) -> (r: Result<SkillResult, String>)
        ensures
            self.may_answer(impl_name@, pairs_map(pairs_view(params@)), scope@, r),
    ;
}

/// Execution context holding the registry and skill handlers.
pub struct ExecutionContext<H> {
    pub registry: SkillRegistry,
    handlers: Vec<(String, H)>,
}

/// What one attempt of a handler comes to: output to use, or a failure message.
pub enum Attempt {
    Done(String),
    Failed(String),
}

/// What an attempt comes to: success and partial results give their text, a skipped
/// result gives no text, and a failed result or an error is a failure.
pub open spec fn attempt_of(r: Result<SkillResult, String>) -> (bool, Str) {
    match r {
        Ok(res) => match res.status {
            SkillStatus::Success => (true, res.text@),
            SkillStatus::Partial => (true, res.text@),
            SkillStatus::Skipped => (true, Seq::empty()),
            SkillStatus::Failed => (false, res.text@),
        },
        Err(msg) => (false, msg@),
    }
}

/// Sort out the outcome of one handler attempt.
pub fn settle_attempt(r: Result<SkillResult, String>) -> (a: Attempt)
    ensures
        r is Ok && (r->Ok_0.status == SkillStatus::Success || r->Ok_0.status == SkillStatus::Partial) ==> (a
            matches Attempt::Done(t) && t@ == r->Ok_0.text@),
        r is Ok && r->Ok_0.status == SkillStatus::Skipped ==> (a matches Attempt::Done(t) && t@.len() == 0),
        r is Ok && r->Ok_0.status == SkillStatus::Failed ==> (a matches Attempt::Failed(m) && m@ == r->Ok_0.text@),
        r is Err ==> (a matches Attempt::Failed(m) && m@ == r->Err_0@),
        match a {
            Attempt::Done(t) => attempt_of(r).0 && t@ == attempt_of(r).1,
            Attempt::Failed(m) => !attempt_of(r).0 && m@ == attempt_of(r).1,
        },
{
    match r {
        Ok(res) => match res.status {
            SkillStatus::Success => Attempt::Done(res.text),
            SkillStatus::Partial => Attempt::Done(res.text),
            SkillStatus::Skipped => Attempt::Done(String::new()),
            SkillStatus::Failed => Attempt::Failed(res.text),
        },
        Err(msg) => Attempt::Failed(msg),
    }
}

/// An execution error as a value: what went wrong, with the skill it concerns.
pub enum ExecFailure {
    ResolutionFailed(crate::resolver::SpecResolveError),
    HandlerError { skill: Str, message: Str },
    RetriesExhausted { skill: Str, attempts: u32 },
    ChildFailed { skill: Str, child: Box<ExecFailure> },
}

/// The value of an execution error.
pub open spec fn failure_of(e: ExecutionError) -> ExecFailure
    decreases e,
{
    match e {
        ExecutionError::ResolutionFailed(x) => ExecFailure::ResolutionFailed(x@),
        ExecutionError::HandlerError { skill, message } => ExecFailure::HandlerError { skill: skill@, message: message@ },
        ExecutionError::RetriesExhausted { skill, attempts } => ExecFailure::RetriesExhausted { skill: skill@, attempts },
        ExecutionError::ChildFailed { skill, child_error } => ExecFailure::ChildFailed {
            skill: skill@,
            child: Box::new(failure_of(*child_error)),
        },
    }
}

/// The outcome of running something: its text, or the failure.
pub open spec fn outcome_of(r: Result<String, ExecutionError>) -> Result<Str, ExecFailure> {
    match r {
        Ok(t) => Ok(t@),
        Err(e) => Err(failure_of(e)),
    }
}

/// What an invocation comes to once every attempt failed, by failure mode: `halt` reports
/// the exhausted retries, `skip` gives no text, `partial` gives `[FAILED: impl: message]`
/// with the last message.
pub open spec fn exhausted_outcome(mode: FailureMode, chosen: Str, last: Str, max_retries: u32) -> Result<Str, ExecFailure> {
    match mode {
        FailureMode::Halt => Err(ExecFailure::RetriesExhausted { skill: chosen, attempts: (max_retries + 1) as u32 }),
        FailureMode::Skip => Ok(Seq::empty()),
        FailureMode::Partial => Ok("[FAILED: "@ + chosen + ": "@ + last + "]"@),
    }
}

/// The outcome once every attempt failed, by failure mode: `halt` reports the exhausted
/// retries, `skip` gives no text, `partial` gives `[FAILED: impl: message]`.
pub fn exhausted(on_failure: FailureMode, impl_name: &str, last_error: Option<String>, max_retries: u32) -> (r: Result<String, ExecutionError>)
    requires
        max_retries < u32::MAX,
    ensures
        outcome_of(r) == exhausted_outcome(on_failure, impl_name@, match last_error {
            Some(m) => m@,
            None => "unknown error"@,
        }, max_retries),
{
    let error_msg = match last_error {
        Some(m) => m,
        None => String::from_str("unknown error"),
    };
    match on_failure {
        FailureMode::Halt => Err(ExecutionError::RetriesExhausted { skill: impl_name.to_string(), attempts: max_retries + 1 }),
        FailureMode::Skip => Ok(String::new()),
        FailureMode::Partial => {
            let mut s = join3("[FAILED: ", impl_name, ": ");
            s.append(error_msg.as_str());
            s.append("]");
            Ok(s)
        },
    }
}

/// Every invocation in the tree asks for fewer than `u32::MAX` retries.
pub open spec fn retries_bounded(n: SpecNode) -> bool
    decreases n, 1nat,
{
    match n {
        SpecNode::Text(_) => true,
        SpecNode::Directive { children, .. } => all_retries_bounded(children),
        SpecNode::Skill { kind, children, .. } => (match kind {
            SpecNodeKind::Invocation { retries, .. } => retries is None || retries.unwrap() < u32::MAX,
            _ => true,
        }) && all_retries_bounded(children),
    }
}

pub open spec fn all_retries_bounded(ns: Seq<SpecNode>) -> bool
    decreases ns, 0nat,
{
    if ns.len() == 0 {
        true
    } else {
        all_retries_bounded(ns.drop_last()) && retries_bounded(ns.last())
    }
}

proof fn lemma_all_bounded(ns: Seq<SpecNode>, i: int)
    requires
        all_retries_bounded(ns),
        0 <= i < ns.len(),
    ensures
        retries_bounded(ns[i]),
    decreases ns.len(),
{
    if i < ns.len() - 1 {
        lemma_all_bounded(ns.drop_last(), i);
    }
}

/// Whether every invocation in `n` asks for fewer than `u32::MAX` retries.
pub fn node_retries_bounded(n: &Node) -> (b: bool)
    ensures
        b == retries_bounded(n@),
    decreases n, 1nat,
{
    match n {
        Node::Text(_) => true,
        Node::Directive { children, .. } => nodes_retries_bounded(children),
        Node::Skill { kind, children, .. } => {
            let own = match kind {
                NodeKind::Invocation { retries, .. } => match retries {
                    Some(r) => *r < u32::MAX,
                    None => true,
                },
                _ => true,
            };
            own && nodes_retries_bounded(children)
        },
    }
}

/// Whether every invocation in `ns` asks for fewer than `u32::MAX` retries.
pub fn nodes_retries_bounded(ns: &Vec<Node>) -> (b: bool)
    ensures
        b == all_retries_bounded(Node::models(ns@)),
    decreases ns, 0nat,
{
    let ghost ms = Node::models(ns@);
    let mut b = true;
    let mut i: usize = 0;
    assert(ms.take(0) =~= Seq::<SpecNode>::empty());
    while i < ns.len()
        invariant
            0 <= i <= ns@.len(),
            ms == Node::models(ns@),
            b == all_retries_bounded(ms.take(i as int)),
        decreases ns@.len() - i,
    {
        assert(ms.take(i + 1).drop_last() =~= ms.take(i as int));
        assert(ms.take(i + 1).last() == ns@[i as int]@);
        let here = node_retries_bounded(&ns[i]);
        b = b && here;
        i = i + 1;
    }
    assert(ms.take(ns@.len() as int) =~= ms);
    b
}

/// The children of a wrapper invocation as text: text as is, nested skills and
/// directives as markers.
pub open spec fn children_text(ns: Seq<SpecNode>) -> Str
    decreases ns.len(),
{
    if ns.len() == 0 {
        Seq::empty()
    } else {
        children_text(ns.drop_last()) + match ns.last() {
            SpecNode::Text(t) => t,
            SpecNode::Skill { .. } => "[nested-skill]"@,
            SpecNode::Directive { .. } => "[nested-directive]"@,
        }
    }
}

/// What an invocation whose resolution failed with `e` comes to, by its failure mode: under
/// `halt` the failure, under `skip` nothing, under `partial` the marker `[FAILED: message]`.
pub open spec fn resolution_failed_outcome(mode: FailureMode, e: crate::resolver::SpecResolveError) -> Result<Str, ExecFailure> {
    match mode {
        FailureMode::Halt => Err(ExecFailure::ResolutionFailed(e)),
        FailureMode::Skip => Ok(Seq::empty()),
        FailureMode::Partial => Ok("[FAILED: "@ + crate::resolver::resolve_message(e) + "]"@),
    }
}

/// The failure mode a directive runs its children under: that of a session or an agent
/// directive, `halt` by default and for a tool directive.
pub open spec fn directive_mode(k: crate::ast::SpecDirectiveKind) -> FailureMode {
    match k {
        crate::ast::SpecDirectiveKind::Session(s) => match s.on_failure {
            Some(m) => m,
            None => FailureMode::Halt,
        },
        crate::ast::SpecDirectiveKind::Agent(a) => match a.on_failure {
            Some(m) => m,
            None => FailureMode::Halt,
        },
        crate::ast::SpecDirectiveKind::Tool(_) => FailureMode::Halt,
    }
}

/// The joined output `acc` of the nodes run so far, with the outcome of one more node:
/// its text is appended; a failure stops the run under `halt` (reported as the failure of a
/// child of `parent` where there is one), is dropped under `skip`, and leaves a marker
/// with its message under `partial`.
pub open spec fn joined(acc: Str, one: Result<Str, ExecFailure>, mode: FailureMode, parent: Option<Str>) -> Result<Str, ExecFailure> {
    match one {
        Ok(t) => Ok(acc + t),
        Err(e) => match mode {
            FailureMode::Halt => match parent {
                None => Err(e),
                Some(s) => Err(ExecFailure::ChildFailed { skill: s, child: Box::new(e) }),
            },
            FailureMode::Skip => Ok(acc),
            FailureMode::Partial => Ok(acc + match parent {
                None => "[DIRECTIVE FAILED: "@,
                Some(_) => "[CHILD FAILED: "@,
            } + failure_message(e) + "]"@),
        },
    }
}

/// One call of a handler: the implementation it runs for, the invocation's parameters (the
/// last value given for each name), and the scope.
pub struct HandlerCall {
    pub impl_name: Str,
    pub params: Map<Str, Str>,
    pub scope: Str,
}

/// The outcome of running something, with the handler calls it made, in order.
pub struct Run {
    pub outcome: Result<Str, ExecFailure>,
    pub calls: Seq<HandlerCall>,
}

/// What a handler answers to one call.
pub type Answer = Result<SkillResult, String>;

/// What a run went through: the handlers' answers and the calls they answered.
pub struct Trace {
    pub answers: Seq<Answer>,
    pub calls: Seq<HandlerCall>,
}

/// The parameters of an invocation as a map: the last value given for each name.
pub open spec fn param_map(ps: Seq<SpecParam>) -> Map<Str, Str> {
    Map::new(|k: Str| last_param_value(ps, k) is Some, |k: Str| last_param_value(ps, k).unwrap())
}

/// Name and value pairs as a map.
pub open spec fn pairs_map(r: Seq<(Str, Str)>) -> Map<Str, Str> {
    Map::new(
        |k: Str| exists|i: int| 0 <= i < r.len() && r[i].0 == k,
        |k: Str| r[choose|i: int| 0 <= i < r.len() && r[i].0 == k].1,
    )
}

proof fn lemma_param_map(r: Seq<(Str, Str)>, ps: Seq<SpecParam>)
    requires
        is_param_map(r, ps),
    ensures
        pairs_map(r) == param_map(ps),
{
    assert forall|k: Str| #[trigger] pairs_map(r).dom().contains(k) implies pairs_map(r)[k] == param_map(ps)[k] by {
        let i = choose|i: int| 0 <= i < r.len() && r[i].0 == k;
        assert(last_param_value(ps, r[i].0) == Some(r[i].1));
    }
    assert forall|k: Str| pairs_map(r).dom().contains(k) <==> #[trigger] param_map(ps).dom().contains(k) by {
        if pairs_map(r).dom().contains(k) {
            let i = choose|i: int| 0 <= i < r.len() && r[i].0 == k;
            assert(last_param_value(ps, r[i].0) == Some(r[i].1));
        }
    }
    assert(pairs_map(r) =~= param_map(ps));
}

/// Asking the handler for `call` from attempt `i` on, where `ans[j]` answers attempt `j`
/// (sorted out by `attempt_of`):
/// the first success gives its text; once the attempt `max_retries` failed too, the failure
/// mode decides.
pub open spec fn attempts(call: HandlerCall, mode: FailureMode, max_retries: u32, ans: Seq<Answer>, i: int) -> Run
    decreases max_retries - i,
{
    if attempt_of(ans[i]).0 {
        Run { outcome: Ok(attempt_of(ans[i]).1), calls: seq![call] }
    } else if i >= max_retries {
        Run { outcome: exhausted_outcome(mode, call.impl_name, attempt_of(ans[i]).1, max_retries), calls: seq![call] }
    } else {
        let rest = attempts(call, mode, max_retries, ans, i + 1);
        Run { outcome: rest.outcome, calls: seq![call] + rest.calls }
    }
}

/// How an invocation ends once its scope is known: without a handler for the chosen
/// implementation the scope passes through; with one, the handler is asked, at most
/// `max_retries + 1` times, with the answers `ans`.
pub open spec fn handled(hs: Seq<Str>, call: HandlerCall, mode: FailureMode, max_retries: u32, ans: Seq<Answer>) -> Run {
    if !hs.contains(call.impl_name) {
        Run { outcome: Ok(call.scope), calls: Seq::empty() }
    } else {
        attempts(call, mode, max_retries, ans, 0)
    }
}

/// Running the nodes `ns` in order and joining their output under the failure mode `mode`,
/// where the handlers give the answers `ans` in turn.
pub open spec fn run_list(reg: SpecRegistry, hs: Seq<Str>, ns: Seq<SpecNode>, mode: FailureMode, parent: Option<Str>, ans: Seq<Answer>) -> Run
    decreases ns, 0nat,
{
    if ns.len() == 0 {
        Run { outcome: Ok(Seq::empty()), calls: Seq::empty() }
    } else {
        let pre = run_list(reg, hs, ns.drop_last(), mode, parent, ans);
        match pre.outcome {
            Err(_) => pre,
            Ok(acc) => {
                let one = run_node(reg, hs, ns.last(), ans.skip(pre.calls.len() as int));
                Run { outcome: joined(acc, one.outcome, mode, parent), calls: pre.calls + one.calls }
            },
        }
    }
}

/// Running an invocation: it is resolved (a failure of resolution is left to the failure
/// mode); its scope is the children as text under the
/// wrapper policy, and their joined output otherwise, where a failure of the children is
/// the invocation's; then it is handled.
pub open spec fn run_invocation(
    reg: SpecRegistry,
    hs: Seq<Str>,
    target: (Option<Str>, Option<Str>, Option<Str>, Option<Str>, Option<Str>),
    params: Map<Str, Str>,
    children: Seq<SpecNode>,
    policy: ExecutionPolicy,
    mode: FailureMode,
    max_retries: u32,
    ans: Seq<Answer>,
) -> Run
    decreases children, 1nat,
{
    match resolution(reg, target.0, target.1, target.2, target.3, target.4) {
        Err(e) => Run { outcome: resolution_failed_outcome(mode, e), calls: Seq::empty() },
        Ok(entry) => if policy == ExecutionPolicy::Wrapper {
            handled(hs, HandlerCall { impl_name: entry.name, params, scope: children_text(children) }, mode, max_retries, ans)
        } else {
            let sc = run_list(reg, hs, children, mode, Some(entry.name), ans);
            match sc.outcome {
                Err(_) => sc,
                Ok(scope) => {
                    let h = handled(
                        hs,
                        HandlerCall { impl_name: entry.name, params, scope },
                        mode,
                        max_retries,
                        ans.skip(sc.calls.len() as int),
                    );
                    Run { outcome: h.outcome, calls: sc.calls + h.calls }
                },
            }
        },
    }
}

/// Running the node `n`, where the handlers give the answers `ans` in turn: text gives
/// itself, a definition gives nothing, a directive joins its children's output, and an
/// invocation is resolved and handled, with `bottom-up`, no retries and `halt` by default.
pub open spec fn run_node(reg: SpecRegistry, hs: Seq<Str>, n: SpecNode, ans: Seq<Answer>) -> Run
    decreases n, 2nat,
{
    match n {
        SpecNode::Text(t) => Run { outcome: Ok(t), calls: Seq::empty() },
        SpecNode::Directive { kind, children, .. } => run_list(reg, hs, children, directive_mode(kind), None, ans),
        SpecNode::Skill { kind, params, children, .. } => match kind {
            SpecNodeKind::Invocation { interface, impl_name, name, language, framework, retries, policy, on_failure, .. } => run_invocation(
                reg,
                hs,
                (interface, impl_name, name, language, framework),
                param_map(params),
                children,
                match policy {
                    Some(p) => p,
                    None => ExecutionPolicy::BottomUp,
                },
                match on_failure {
                    Some(m) => m,
                    None => FailureMode::Halt,
                },
                match retries {
                    Some(k) => k,
                    None => 0,
                },
                ans,
            ),
            _ => Run { outcome: Ok(Seq::empty()), calls: Seq::empty() },
        },
    }
}

/// The two answer lists agree on their first `k` answers.
pub open spec fn agree(a1: Seq<Answer>, a2: Seq<Answer>, k: int) -> bool {
    &&& 0 <= k <= a1.len()
    &&& k <= a2.len()
    &&& forall|j: int| 0 <= j < k ==> #[trigger] a1[j] == a2[j]
}

proof fn lemma_agree_skip(a1: Seq<Answer>, a2: Seq<Answer>, k: int, s: int)
    requires
        agree(a1, a2, k),
        0 <= s <= k,
    ensures
        agree(a1.skip(s), a2.skip(s), k - s),
{
    assert forall|j: int| 0 <= j < k - s implies #[trigger] a1.skip(s)[j] == a2.skip(s)[j] by {
        assert(a1[s + j] == a2[s + j]);
    }
}

proof fn lemma_attempts_frame(call: HandlerCall, mode: FailureMode, max_retries: u32, a1: Seq<Answer>, a2: Seq<Answer>, i: int)
    requires
        0 <= i,
        agree(a1, a2, i + attempts(call, mode, max_retries, a1, i).calls.len()),
    ensures
        attempts(call, mode, max_retries, a2, i) == attempts(call, mode, max_retries, a1, i),
    decreases max_retries - i,
{
    assert(a1[i] == a2[i]);
    if !attempt_of(a1[i]).0 && i < max_retries {
        lemma_attempts_frame(call, mode, max_retries, a1, a2, i + 1);
    }
}

proof fn lemma_handled_frame(hs: Seq<Str>, call: HandlerCall, mode: FailureMode, max_retries: u32, a1: Seq<Answer>, a2: Seq<Answer>)
    requires
        agree(a1, a2, handled(hs, call, mode, max_retries, a1).calls.len() as int),
    ensures
        handled(hs, call, mode, max_retries, a2) == handled(hs, call, mode, max_retries, a1),
{
    if hs.contains(call.impl_name) {
        lemma_attempts_frame(call, mode, max_retries, a1, a2, 0);
    }
}

/// A run reads only the answers to the calls it makes.
proof fn lemma_node_frame(reg: SpecRegistry, hs: Seq<Str>, n: SpecNode, a1: Seq<Answer>, a2: Seq<Answer>)
    requires
        agree(a1, a2, run_node(reg, hs, n, a1).calls.len() as int),
    ensures
        run_node(reg, hs, n, a2) == run_node(reg, hs, n, a1),
    decreases n, 2nat,
{
    match n {
        SpecNode::Text(_) => {},
        SpecNode::Directive { kind, children, .. } => {
            lemma_list_frame(reg, hs, children, directive_mode(kind), None, a1, a2);
        },
        SpecNode::Skill { kind, params, children, .. } => match kind {
            SpecNodeKind::Invocation { interface, impl_name, name, language, framework, retries, policy, on_failure, .. } => {
                lemma_invocation_frame(
                    reg,
                    hs,
                    (interface, impl_name, name, language, framework),
                    param_map(params),
                    children,
                    match policy {
                        Some(p) => p,
                        None => ExecutionPolicy::BottomUp,
                    },
                    match on_failure {
                        Some(m) => m,
                        None => FailureMode::Halt,
                    },
                    match retries {
                        Some(k) => k,
                        None => 0,
                    },
                    a1,
                    a2,
                );
            },
            _ => {},
        },
    }
}

proof fn lemma_invocation_frame(
    reg: SpecRegistry,
    hs: Seq<Str>,
    target: (Option<Str>, Option<Str>, Option<Str>, Option<Str>, Option<Str>),
    params: Map<Str, Str>,
    children: Seq<SpecNode>,
    policy: ExecutionPolicy,
    mode: FailureMode,
    max_retries: u32,
    a1: Seq<Answer>,
    a2: Seq<Answer>,
)
    requires
        agree(a1, a2, run_invocation(reg, hs, target, params, children, policy, mode, max_retries, a1).calls.len() as int),
    ensures
        run_invocation(reg, hs, target, params, children, policy, mode, max_retries, a2) == run_invocation(
            reg,
            hs,
            target,
            params,
            children,
            policy,
            mode,
            max_retries,
            a1,
        ),
    decreases children, 1nat,
{
    match resolution(reg, target.0, target.1, target.2, target.3, target.4) {
        Err(_) => {},
        Ok(entry) => if policy == ExecutionPolicy::Wrapper {
            lemma_handled_frame(
                hs,
                HandlerCall { impl_name: entry.name, params, scope: children_text(children) },
                mode,
                max_retries,
                a1,
                a2,
            );
        } else {
            let sc = run_list(reg, hs, children, mode, Some(entry.name), a1);
            lemma_list_frame(reg, hs, children, mode, Some(entry.name), a1, a2);
            if let Ok(scope) = sc.outcome {
                let k = sc.calls.len() as int;
                let call = HandlerCall { impl_name: entry.name, params, scope };
                let total = run_invocation(reg, hs, target, params, children, policy, mode, max_retries, a1).calls.len() as int;
                lemma_agree_skip(a1, a2, total, k);
                lemma_handled_frame(hs, call, mode, max_retries, a1.skip(k), a2.skip(k));
            }
        },
    }
}

proof fn lemma_list_frame(reg: SpecRegistry, hs: Seq<Str>, ns: Seq<SpecNode>, mode: FailureMode, parent: Option<Str>, a1: Seq<Answer>, a2: Seq<Answer>)
    requires
        agree(a1, a2, run_list(reg, hs, ns, mode, parent, a1).calls.len() as int),
    ensures
        run_list(reg, hs, ns, mode, parent, a2) == run_list(reg, hs, ns, mode, parent, a1),
    decreases ns, 0nat,
{
    if ns.len() > 0 {
        let pre = run_list(reg, hs, ns.drop_last(), mode, parent, a1);
        lemma_list_frame(reg, hs, ns.drop_last(), mode, parent, a1, a2);
        if pre.outcome is Ok {
            let k = pre.calls.len() as int;
            let total = run_list(reg, hs, ns, mode, parent, a1).calls.len() as int;
            lemma_agree_skip(a1, a2, total, k);
            lemma_node_frame(reg, hs, ns.last(), a1.skip(k), a2.skip(k));
        }
    }
}

/// A failure of the first `k` nodes of a list is the outcome of the whole list.
proof fn lemma_list_failure_extends(reg: SpecRegistry, hs: Seq<Str>, ns: Seq<SpecNode>, mode: FailureMode, parent: Option<Str>, ans: Seq<Answer>, k: int)
    requires
        0 <= k <= ns.len(),
        run_list(reg, hs, ns.take(k), mode, parent, ans).outcome is Err,
    ensures
        run_list(reg, hs, ns, mode, parent, ans) == run_list(reg, hs, ns.take(k), mode, parent, ans),
    decreases ns.len() - k,
{
    if k == ns.len() {
        assert(ns.take(k) =~= ns);
    } else {
        assert(ns.take(k + 1).drop_last() =~= ns.take(k));
        lemma_list_failure_extends(reg, hs, ns, mode, parent, ans, k + 1);
    }
}

/// The attempts that failed but the last, which succeeded or was the final one, come to
/// the first success or to what the failure mode gives.
proof fn lemma_attempts_result(call: HandlerCall, mode: FailureMode, max_retries: u32, tries: Seq<Answer>, i: int)
    requires
        0 <= i < tries.len() <= max_retries + 1,
        forall|j: int| 0 <= j < tries.len() - 1 ==> !attempt_of(#[trigger] tries[j]).0,
        attempt_of(tries.last()).0 || tries.len() == max_retries + 1,
    ensures
        attempts(call, mode, max_retries, tries, i) == (Run {
            outcome: if attempt_of(tries.last()).0 {
                Ok(attempt_of(tries.last()).1)
            } else {
                exhausted_outcome(mode, call.impl_name, attempt_of(tries.last()).1, max_retries)
            },
            calls: Seq::new((tries.len() - i) as nat, |j: int| call),
        }),
    decreases tries.len() - i,
{
    if i < tries.len() - 1 {
        assert(!attempt_of(tries[i]).0);
        lemma_attempts_result(call, mode, max_retries, tries, i + 1);
        assert(seq![call] + Seq::new((tries.len() - (i + 1)) as nat, |j: int| call) =~= Seq::new(
            (tries.len() - i) as nat,
            |j: int| call,
        ));
    } else {
        assert(seq![call] =~= Seq::new((tries.len() - i) as nat, |j: int| call));
    }
}

/// What a node puts out when no handler runs anywhere in it: text as is, nothing for a
/// definition, a directive's children joined, and for an invocation that resolves to an
/// implementation without a handler, its scope passed through (the children as text for
/// the wrapper policy, their joined output otherwise). `None` where a handler would run or
/// resolution fails.
pub open spec fn quiet_output(reg: SpecRegistry, hs: Seq<Str>, n: SpecNode) -> Option<Str>
    decreases n, 1nat,
{
    match n {
        SpecNode::Text(t) => Some(t),
        SpecNode::Directive { children, .. } => quiet_outputs(reg, hs, children),
        SpecNode::Skill { kind, children, .. } => match kind {
            SpecNodeKind::Invocation { interface, impl_name, name, language, framework, policy, .. } => match resolution(
                reg,
                interface,
                impl_name,
                name,
                language,
                framework,
            ) {
                Ok(e) => if hs.contains(e.name) {
                    None
                } else if policy == Some(ExecutionPolicy::Wrapper) {
                    Some(children_text(children))
                } else {
                    quiet_outputs(reg, hs, children)
                },
                Err(_) => None,
            },
            _ => Some(Seq::empty()),
        },
    }
}

/// The joined output of nodes where no handler runs, or `None`.
pub open spec fn quiet_outputs(reg: SpecRegistry, hs: Seq<Str>, ns: Seq<SpecNode>) -> Option<Str>
    decreases ns, 0nat,
{
    if ns.len() == 0 {
        Some(Seq::empty())
    } else {
        match (quiet_outputs(reg, hs, ns.drop_last()), quiet_output(reg, hs, ns.last())) {
            (Some(a), Some(b)) => Some(a + b),
            _ => None,
        }
    }
}

/// Where no handler runs anywhere in a node, running it makes no handler call and has one
/// outcome, whatever the handlers would answer: the output that `quiet_output` gives.
pub proof fn law_quiet_node_runs_alike(reg: SpecRegistry, hs: Seq<Str>, n: SpecNode, ans: Seq<Answer>)
    requires
        quiet_output(reg, hs, n) is Some,
    ensures
        run_node(reg, hs, n, ans) == (Run { outcome: Ok(quiet_output(reg, hs, n).unwrap()), calls: Seq::empty() }),
    decreases n, 1nat,
{
    match n {
        SpecNode::Text(_) => {},
        SpecNode::Directive { kind, children, .. } => {
            law_quiet_list_runs_alike(reg, hs, children, directive_mode(kind), None, ans);
        },
        SpecNode::Skill { kind, children, .. } => match kind {
            SpecNodeKind::Invocation { interface, impl_name, name, language, framework, policy, on_failure, .. } => {
                if policy != Some(ExecutionPolicy::Wrapper) {
                    let entry = resolution(reg, interface, impl_name, name, language, framework)->Ok_0;
                    let mode = match on_failure {
                        Some(m) => m,
                        None => FailureMode::Halt,
                    };
                    law_quiet_list_runs_alike(reg, hs, children, mode, Some(entry.name), ans);
                    assert(Seq::<HandlerCall>::empty() + Seq::<HandlerCall>::empty() =~= Seq::<HandlerCall>::empty());
                }
            },
            _ => {},
        },
    }
}

/// Where no handler runs anywhere in a list of nodes, running them makes no handler call
/// and has one outcome, whatever the handlers would answer: the joined output that
/// `quiet_outputs` gives.
pub proof fn law_quiet_list_runs_alike(reg: SpecRegistry, hs: Seq<Str>, ns: Seq<SpecNode>, mode: FailureMode, parent: Option<Str>, ans: Seq<Answer>)
    requires
        quiet_outputs(reg, hs, ns) is Some,
    ensures
        run_list(reg, hs, ns, mode, parent, ans) == (Run { outcome: Ok(quiet_outputs(reg, hs, ns).unwrap()), calls: Seq::empty() }),
    decreases ns, 0nat,
{
    if ns.len() > 0 {
        law_quiet_list_runs_alike(reg, hs, ns.drop_last(), mode, parent, ans);
        law_quiet_node_runs_alike(reg, hs, ns.last(), ans.skip(0));
        assert(Seq::<HandlerCall>::empty() + Seq::<HandlerCall>::empty() =~= Seq::<HandlerCall>::empty());
    }
}

/// The runs of the nodes `ns` one after the other, each reading the answers after those
/// that the runs before it read.
pub open spec fn runs_in_turn(reg: SpecRegistry, hs: Seq<Str>, ns: Seq<SpecNode>, ans: Seq<Answer>) -> Seq<Run>
    decreases ns.len(),
{
    if ns.len() == 0 {
        Seq::empty()
    } else {
        let pre = runs_in_turn(reg, hs, ns.drop_last(), ans);
        pre.push(run_node(reg, hs, ns.last(), ans.skip(calls_made(pre).len() as int)))
    }
}

/// The handler calls of the runs `rs`, in order.
pub open spec fn calls_made(rs: Seq<Run>) -> Seq<HandlerCall>
    decreases rs.len(),
{
    if rs.len() == 0 {
        Seq::empty()
    } else {
        calls_made(rs.drop_last()) + rs.last().calls
    }
}

/// The outcomes `os` joined in order under `mode`: texts are appended, and each failure is
/// handled as `joined` says; after a failure that stops the join, it is the result.
pub open spec fn join_all(os: Seq<Result<Str, ExecFailure>>, mode: FailureMode, parent: Option<Str>) -> Result<Str, ExecFailure>
    decreases os.len(),
{
    if os.len() == 0 {
        Ok(Seq::empty())
    } else {
        match join_all(os.drop_last(), mode, parent) {
            Err(e) => Err(e),
            Ok(acc) => joined(acc, os.last(), mode, parent),
        }
    }
}

/// The outcomes of the runs `rs`.
pub open spec fn outcomes(rs: Seq<Run>) -> Seq<Result<Str, ExecFailure>> {
    rs.map_values(|r: Run| r.outcome)
}

/// Running a list of nodes joins the outcomes of its nodes, each run in turn on the answers
/// left by those before it: their texts in order; under `halt` the first failure ends the
/// list (later nodes are not run); under `skip` failures are dropped; under `partial` each
/// leaves a marker with its message.
pub proof fn law_list_joins_its_nodes(reg: SpecRegistry, hs: Seq<Str>, ns: Seq<SpecNode>, mode: FailureMode, parent: Option<Str>, ans: Seq<Answer>)
    ensures
        run_list(reg, hs, ns, mode, parent, ans).outcome == join_all(outcomes(runs_in_turn(reg, hs, ns, ans)), mode, parent),
        run_list(reg, hs, ns, mode, parent, ans).outcome is Ok ==> run_list(reg, hs, ns, mode, parent, ans).calls
            == calls_made(runs_in_turn(reg, hs, ns, ans)),
    decreases ns.len(),
{
    if ns.len() > 0 {
        law_list_joins_its_nodes(reg, hs, ns.drop_last(), mode, parent, ans);
        let rs = runs_in_turn(reg, hs, ns, ans);
        let pre = runs_in_turn(reg, hs, ns.drop_last(), ans);
        assert(rs.drop_last() =~= pre);
        assert(outcomes(rs).drop_last() =~= outcomes(pre));
        assert(outcomes(rs).last() == rs.last().outcome);
    }
}

/// A directive runs its children in turn and joins their output under its failure mode
/// (that of a session or agent directive, `halt` by default and for a tool directive),
/// with failures reported as they are.
pub proof fn law_directive_joins_its_children(reg: SpecRegistry, hs: Seq<Str>, n: SpecNode, ans: Seq<Answer>)
    requires
        n is Directive,
    ensures
        match n {
            SpecNode::Directive { kind, children, .. } => {
                &&& run_node(reg, hs, n, ans) == run_list(reg, hs, children, directive_mode(kind), None, ans)
                &&& run_node(reg, hs, n, ans).outcome == join_all(
                    outcomes(runs_in_turn(reg, hs, children, ans)),
                    directive_mode(kind),
                    None,
                )
            },
            _ => true,
        },
{
    if let SpecNode::Directive { kind, children, .. } = n {
        law_list_joins_its_nodes(reg, hs, children, directive_mode(kind), None, ans);
    }
}

/// Definitions never execute: an interface, implementation or contract definition gives
/// no text, calls no handler and runs none of its children.
pub proof fn law_definitions_run_nothing(reg: SpecRegistry, hs: Seq<Str>, n: SpecNode, ans: Seq<Answer>)
    requires
        n matches SpecNode::Skill { kind, .. } && !(kind is Invocation),
    ensures
        run_node(reg, hs, n, ans) == (Run { outcome: Ok(Seq::empty()), calls: Seq::empty() }),
{
}

/// An invocation whose resolution fails calls no handler: under `skip` it gives no text,
/// under `partial` the marker `[FAILED: message]`, and under `halt` (the default) the
/// resolution failure.
pub proof fn law_unresolved_invocation(reg: SpecRegistry, hs: Seq<Str>, n: SpecNode, ans: Seq<Answer>)
    ensures
        match n {
            SpecNode::Skill { kind: SpecNodeKind::Invocation { interface, impl_name, name, language, framework, on_failure, .. }, .. } => {
                resolution(reg, interface, impl_name, name, language, framework) matches Err(e) ==> {
                    &&& run_node(reg, hs, n, ans).calls.len() == 0
                    &&& on_failure == Some(FailureMode::Skip) ==> run_node(reg, hs, n, ans).outcome == Ok::<Str, ExecFailure>(Seq::<char>::empty())
                    &&& on_failure == Some(FailureMode::Partial) ==> run_node(reg, hs, n, ans).outcome == Ok::<Str, ExecFailure>(
                        "[FAILED: "@ + crate::resolver::resolve_message(e) + "]"@,
                    )
                    &&& (on_failure is None || on_failure == Some(FailureMode::Halt)) ==> run_node(reg, hs, n, ans).outcome
                        == Err::<Str, ExecFailure>(ExecFailure::ResolutionFailed(e))
                }
            },
            _ => true,
        },
{
}

proof fn lemma_attempts_all_fail(call: HandlerCall, mode: FailureMode, max_retries: u32, ans: Seq<Answer>, i: int)
    requires
        0 <= i <= max_retries,
        forall|j: int| i <= j <= max_retries ==> !(#[trigger] attempt_of(ans[j])).0,
    ensures
        attempts(call, mode, max_retries, ans, i) == (Run {
            outcome: exhausted_outcome(mode, call.impl_name, attempt_of(ans[max_retries as int]).1, max_retries),
            calls: Seq::new((max_retries - i + 1) as nat, |_j: int| call),
        }),
    decreases max_retries - i,
{
    assert(!attempt_of(ans[i]).0);
    if i < max_retries {
        lemma_attempts_all_fail(call, mode, max_retries, ans, i + 1);
        assert(seq![call] + Seq::new((max_retries - i) as nat, |_j: int| call) =~= Seq::new(
            (max_retries - i + 1) as nat,
            |_j: int| call,
        ));
    } else {
        assert(seq![call] =~= Seq::new(1nat, |_j: int| call));
    }
}

/// A handler that fails every attempt is asked `max_retries + 1` times, each time with the
/// same call; then the failure mode decides, with the message of the last failure: `halt`
/// reports the retries as exhausted after `max_retries + 1` attempts, `skip` gives no
/// text, and `partial` gives `[FAILED: impl: message]`.
pub proof fn law_failing_handler_is_asked_once_per_attempt(call: HandlerCall, mode: FailureMode, max_retries: u32, ans: Seq<Answer>)
    requires
        max_retries < u32::MAX,
        forall|j: int| 0 <= j <= max_retries ==> !(#[trigger] attempt_of(ans[j])).0,
    ensures
        attempts(call, mode, max_retries, ans, 0).calls == Seq::new(max_retries as nat + 1, |_j: int| call),
        mode == FailureMode::Halt ==> attempts(call, mode, max_retries, ans, 0).outcome == Err::<Str, ExecFailure>(
            ExecFailure::RetriesExhausted { skill: call.impl_name, attempts: (max_retries + 1) as u32 },
        ),
        mode == FailureMode::Skip ==> attempts(call, mode, max_retries, ans, 0).outcome == Ok::<Str, ExecFailure>(Seq::<char>::empty()),
        mode == FailureMode::Partial ==> attempts(call, mode, max_retries, ans, 0).outcome == Ok::<Str, ExecFailure>(
            "[FAILED: "@ + call.impl_name + ": "@ + attempt_of(ans[max_retries as int]).1 + "]"@,
        ),
{
    lemma_attempts_all_fail(call, mode, max_retries, ans, 0);
}

/// A successful or partial answer ends the attempts: the handler was asked once and its
/// text is the outcome, whatever the failure mode and the retries.
pub proof fn law_successful_answer_ends_the_attempts(call: HandlerCall, mode: FailureMode, max_retries: u32, ans: Seq<Answer>)
    requires
        ans.len() > 0,
        ans[0] matches Ok(res) && (res.status == SkillStatus::Success || res.status == SkillStatus::Partial),
    ensures
        attempts(call, mode, max_retries, ans, 0) == (Run { outcome: Ok(ans[0]->Ok_0.text@), calls: seq![call] }),
{
}

/// An invocation resolved to an implementation with a handler, whose children run no
/// handler, and whose handler answers a success or a partial result at once, is that
/// answer's text, after exactly one call.
pub proof fn law_invocation_with_a_successful_handler(
    reg: SpecRegistry,
    hs: Seq<Str>,
    target: (Option<Str>, Option<Str>, Option<Str>, Option<Str>, Option<Str>),
    params: Map<Str, Str>,
    children: Seq<SpecNode>,
    policy: ExecutionPolicy,
    mode: FailureMode,
    max_retries: u32,
    ans: Seq<Answer>,
    e: crate::registry::SpecImplementationEntry,
)
    requires
        resolution(reg, target.0, target.1, target.2, target.3, target.4) == Ok::<crate::registry::SpecImplementationEntry, crate::resolver::SpecResolveError>(e),
        hs.contains(e.name),
        quiet_outputs(reg, hs, children) is Some,
        ans.len() > 0,
        ans[0] matches Ok(res) && (res.status == SkillStatus::Success || res.status == SkillStatus::Partial),
    ensures
        run_invocation(reg, hs, target, params, children, policy, mode, max_retries, ans) == (Run {
            outcome: Ok(ans[0]->Ok_0.text@),
            calls: seq![quiet_invocation_call(reg, hs, e, params, children, policy)],
        }),
{
    law_invocation_runs_its_handler(reg, hs, target, params, children, policy, mode, max_retries, ans, e);
}

/// A skipped answer is not retried: where a handler is registered, it is asked once and
/// the invocation gives no text, whatever the failure mode and the retries.
pub proof fn law_skipped_answer_is_not_retried(hs: Seq<Str>, call: HandlerCall, mode: FailureMode, max_retries: u32, ans: Seq<Answer>)
    requires
        hs.contains(call.impl_name),
        ans.len() > 0,
        ans[0] matches Ok(res) && res.status == SkillStatus::Skipped,
    ensures
        handled(hs, call, mode, max_retries, ans) == (Run { outcome: Ok(Seq::empty()), calls: seq![call] }),
{
}

proof fn lemma_attempts_calls(call: HandlerCall, mode: FailureMode, max_retries: u32, ans: Seq<Answer>, i: int)
    requires
        0 <= i <= max_retries,
    ensures
        1 <= attempts(call, mode, max_retries, ans, i).calls.len() <= max_retries - i + 1,
        forall|j: int| 0 <= j < attempts(call, mode, max_retries, ans, i).calls.len()
            ==> #[trigger] attempts(call, mode, max_retries, ans, i).calls[j] == call,
    decreases max_retries - i,
{
    if !attempt_of(ans[i]).0 && i < max_retries {
        lemma_attempts_calls(call, mode, max_retries, ans, i + 1);
        let rest = attempts(call, mode, max_retries, ans, i + 1);
        let all = attempts(call, mode, max_retries, ans, i);
        assert(all.calls == seq![call] + rest.calls);
        assert forall|j: int| 0 <= j < all.calls.len() implies #[trigger] all.calls[j] == call by {
            if j > 0 {
                assert(all.calls[j] == rest.calls[j - 1]);
            }
        }
    }
}

/// Without a handler for the chosen implementation the scope passes through as the text
/// and no handler is called; with one, every call made is the invocation's own call (the
/// implementation, its parameters and the scope), at least once and at most
/// `max_retries + 1` times, and the answers decide as `attempts` says.
pub proof fn law_handler_invocation(hs: Seq<Str>, call: HandlerCall, mode: FailureMode, max_retries: u32, ans: Seq<Answer>)
    ensures
        !hs.contains(call.impl_name) ==> handled(hs, call, mode, max_retries, ans) == (Run {
            outcome: Ok(call.scope),
            calls: Seq::empty(),
        }),
        hs.contains(call.impl_name) ==> {
            &&& handled(hs, call, mode, max_retries, ans) == attempts(call, mode, max_retries, ans, 0)
            &&& 1 <= handled(hs, call, mode, max_retries, ans).calls.len() <= max_retries + 1
            &&& forall|j: int| 0 <= j < handled(hs, call, mode, max_retries, ans).calls.len()
                ==> #[trigger] handled(hs, call, mode, max_retries, ans).calls[j] == call
        },
{
    lemma_attempts_calls(call, mode, max_retries, ans, 0);
}

/// The call an invocation resolved to `e` makes where its children run no handler: the
/// implementation, the parameters, and as scope the children as text under the wrapper
/// policy or their joined output otherwise.
pub open spec fn quiet_invocation_call(
    reg: SpecRegistry,
    hs: Seq<Str>,
    e: crate::registry::SpecImplementationEntry,
    params: Map<Str, Str>,
    children: Seq<SpecNode>,
    policy: ExecutionPolicy,
) -> HandlerCall {
    HandlerCall {
        impl_name: e.name,
        params,
        scope: if policy == ExecutionPolicy::Wrapper {
            children_text(children)
        } else {
            quiet_outputs(reg, hs, children).unwrap()
        },
    }
}

/// An invocation resolved to an implementation with a handler, whose children run no
/// handler, runs as that handler's attempts at its call.
pub proof fn law_invocation_runs_its_handler(
    reg: SpecRegistry,
    hs: Seq<Str>,
    target: (Option<Str>, Option<Str>, Option<Str>, Option<Str>, Option<Str>),
    params: Map<Str, Str>,
    children: Seq<SpecNode>,
    policy: ExecutionPolicy,
    mode: FailureMode,
    max_retries: u32,
    ans: Seq<Answer>,
    e: crate::registry::SpecImplementationEntry,
)
    requires
        resolution(reg, target.0, target.1, target.2, target.3, target.4) == Ok::<crate::registry::SpecImplementationEntry, crate::resolver::SpecResolveError>(e),
        hs.contains(e.name),
        quiet_outputs(reg, hs, children) is Some,
    ensures
        run_invocation(reg, hs, target, params, children, policy, mode, max_retries, ans) == attempts(
            quiet_invocation_call(reg, hs, e, params, children, policy),
            mode,
            max_retries,
            ans,
            0,
        ),
{
    if policy != ExecutionPolicy::Wrapper {
        law_quiet_list_runs_alike(reg, hs, children, mode, Some(e.name), ans);
        assert(ans.skip(0) =~= ans);
        assert(Seq::<HandlerCall>::empty() + attempts(quiet_invocation_call(reg, hs, e, params, children, policy), mode, max_retries, ans, 0).calls
            =~= attempts(quiet_invocation_call(reg, hs, e, params, children, policy), mode, max_retries, ans, 0).calls);
    }
}

/// An invocation whose handler fails every attempt, and whose children run no handler,
/// asks that handler `max_retries + 1` times with the same call, and ends as the failure
/// mode says with the last failure's message.
pub proof fn law_invocation_with_a_failing_handler(
    reg: SpecRegistry,
    hs: Seq<Str>,
    target: (Option<Str>, Option<Str>, Option<Str>, Option<Str>, Option<Str>),
    params: Map<Str, Str>,
    children: Seq<SpecNode>,
    policy: ExecutionPolicy,
    mode: FailureMode,
    max_retries: u32,
    ans: Seq<Answer>,
    e: crate::registry::SpecImplementationEntry,
)
    requires
        resolution(reg, target.0, target.1, target.2, target.3, target.4) == Ok::<crate::registry::SpecImplementationEntry, crate::resolver::SpecResolveError>(e),
        hs.contains(e.name),
        quiet_outputs(reg, hs, children) is Some,
        max_retries < u32::MAX,
        forall|j: int| 0 <= j <= max_retries ==> !(#[trigger] attempt_of(ans[j])).0,
    ensures
        run_invocation(reg, hs, target, params, children, policy, mode, max_retries, ans).calls == Seq::new(
            max_retries as nat + 1,
            |_j: int| quiet_invocation_call(reg, hs, e, params, children, policy),
        ),
        run_invocation(reg, hs, target, params, children, policy, mode, max_retries, ans).outcome == exhausted_outcome(
            mode,
            e.name,
            attempt_of(ans[max_retries as int]).1,
            max_retries,
        ),
{
    law_invocation_runs_its_handler(reg, hs, target, params, children, policy, mode, max_retries, ans, e);
    lemma_attempts_all_fail(quiet_invocation_call(reg, hs, e, params, children, policy), mode, max_retries, ans, 0);
}

/// The handler of the first entry named `n`.
pub open spec fn first_handler<H>(hs: Seq<(String, H)>, n: Str) -> Option<H>
    decreases hs.len(),
{
    if hs.len() == 0 {
        None
    } else {
        match first_handler(hs.drop_last(), n) {
            Some(h) => Some(h),
            None => if hs.last().0@ == n {
                Some(hs.last().1)
            } else {
                None
            },
        }
    }
}

proof fn lemma_first_handler_none<H>(hs: Seq<(String, H)>, n: Str)
    ensures
        first_handler(hs, n) is None <==> forall|i: int| 0 <= i < hs.len() ==> hs[i].0@ != n,
    decreases hs.len(),
{
    if hs.len() > 0 {
        lemma_first_handler_none(hs.drop_last(), n);
        assert forall|i: int| 0 <= i < hs.len() - 1 implies hs.drop_last()[i] == hs[i] by {}
    }
}

proof fn lemma_first_handler_at<H>(hs: Seq<(String, H)>, i: int, n: Str)
    requires
        0 <= i < hs.len(),
        hs[i].0@ == n,
        forall|j: int| 0 <= j < i ==> hs[j].0@ != n,
    ensures
        first_handler(hs, n) == Some(hs[i].1),
    decreases hs.len(),
{
    if i < hs.len() - 1 {
        lemma_first_handler_at(hs.drop_last(), i, n);
    } else {
        lemma_first_handler_none(hs.drop_last(), n);
    }
}

proof fn lemma_first_handler_update<H>(hs: Seq<(String, H)>, i: int, x: (String, H), m: Str)
    requires
        0 <= i < hs.len(),
        x.0@ == hs[i].0@,
        forall|j: int| 0 <= j < i ==> hs[j].0@ != hs[i].0@,
    ensures
        first_handler(hs.update(i, x), m) == if m == hs[i].0@ {
            Some(x.1)
        } else {
            first_handler(hs, m)
        },
    decreases hs.len(),
{
    let u = hs.update(i, x);
    if i < hs.len() - 1 {
        assert(u.drop_last() =~= hs.drop_last().update(i, x));
        lemma_first_handler_update(hs.drop_last(), i, x, m);
    } else {
        assert(u.drop_last() =~= hs.drop_last());
        lemma_first_handler_none(hs.drop_last(), hs[i].0@);
    }
}

impl<H: SkillHandler> ExecutionContext<H> {
    /// The registry's model.
    pub closed spec fn registry_model(&self) -> crate::registry::SpecRegistry {
        self.registry@
    }

    /// The names that have a handler.
    pub closed spec fn handler_names(&self) -> Seq<Str> {
        self.handlers@.map_values(|p: (String, H)| p.0@)
    }

    /// The handler registered for `n`.
    pub closed spec fn handler_of(&self, n: Str) -> Option<H> {
        first_handler(self.handlers@, n)
    }

    /// `a` is an answer that the handler registered for the call's implementation may give
    /// to the call.
    pub open spec fn answers_call(&self, c: HandlerCall, a: Answer) -> bool {
        match self.handler_of(c.impl_name) {
            Some(h) => h.may_answer(c.impl_name, c.params, c.scope, a),
            None => false,
        }
    }

    /// Each answer of the trace answers its call.
    pub open spec fn answers_fit(&self, t: Trace) -> bool {
        &&& t.answers.len() == t.calls.len()
        &&& forall|i: int| 0 <= i < t.calls.len() ==> self.answers_call(#[trigger] t.calls[i], t.answers[i])
    }

    proof fn lemma_fits_concat(&self, a: Trace, b: Trace)
        requires
            self.answers_fit(a),
            self.answers_fit(b),
        ensures
            self.answers_fit(Trace { answers: a.answers + b.answers, calls: a.calls + b.calls }),
    {
        let c = Trace { answers: a.answers + b.answers, calls: a.calls + b.calls };
        assert forall|i: int| 0 <= i < c.calls.len() implies self.answers_call(#[trigger] c.calls[i], c.answers[i]) by {
            if i < a.calls.len() {
                assert(c.calls[i] == a.calls[i] && c.answers[i] == a.answers[i]);
            } else {
                assert(c.calls[i] == b.calls[i - a.calls.len()] && c.answers[i] == b.answers[i - a.calls.len()]);
            }
        }
    }

    /// A name has a handler exactly when it is among the handler names.
    proof fn lemma_names_handler(&self, n: Str)
        ensures
            self.handler_names().contains(n) <==> self.handler_of(n) is Some,
    {
        lemma_first_handler_none(self.handlers@, n);
        if self.handler_of(n) is Some {
            let i = choose|i: int| 0 <= i < self.handlers@.len() && !(self.handlers@[i].0@ != n);
            assert(self.handler_names()[i] == n);
        }
    }

    pub fn new(registry: SkillRegistry) -> (c: Self)
        ensures
            c.registry_model() == registry@,
            c.handler_names().len() == 0,
            forall|n: Str| c.handler_of(n) is None,
    {
        let c = ExecutionContext { registry, handlers: Vec::new() };
        assert(c.handler_names() =~= Seq::<Str>::empty());
        c
    }

    /// Register `handler` for the implementation `impl_name`, replacing an earlier one.
    pub fn register_handler(&mut self, impl_name: String, handler: H)
        ensures
            final(self).registry_model() == old(self).registry_model(),
            final(self).handler_names().contains(impl_name@),
            forall|n: Str| old(self).handler_names().contains(n) ==> final(self).handler_names().contains(n),
            forall|n: Str| #[trigger] final(self).handler_names().contains(n) ==> n == impl_name@ || old(self).handler_names().contains(n),
            final(self).handler_of(impl_name@) == Some(handler),
            forall|n: Str| n != impl_name@ ==> #[trigger] final(self).handler_of(n) == old(self).handler_of(n),
    {
        let ghost names = self.handler_names();
        let mut i: usize = 0;
        while i < self.handlers.len()
            invariant
                0 <= i <= self.handlers@.len(),
                names == self.handlers@.map_values(|p: (String, H)| p.0@),
                names == old(self).handler_names(),
                self.handlers@ == old(self).handlers@,
                self.registry_model() == old(self).registry_model(),
                forall|j: int| 0 <= j < i ==> self.handlers@[j].0@ != impl_name@,
            decreases self.handlers@.len() - i,
        {
            if str_eq(self.handlers[i].0.as_str(), impl_name.as_str()) {
                let ghost k = impl_name@;
                let ghost before = self.handlers@;
                let ghost entry = (impl_name, handler);
                self.handlers.set(i, (impl_name, handler));
                proof {
                    assert(self.handlers@ == before.update(i as int, entry));
                    assert forall|m: Str| #[trigger] first_handler(self.handlers@, m) == if m == k {
                        Some(handler)
                    } else {
                        first_handler(before, m)
                    } by {
                        lemma_first_handler_update(before, i as int, entry, m);
                    }
                    let nn = self.handler_names();
                    assert(nn =~= names.update(i as int, k));
                    assert(names[i as int] == k);
                    assert(nn[i as int] == k);
                    assert forall|n: Str| names.contains(n) implies nn.contains(n) by {
                        let j = choose|j: int| 0 <= j < names.len() && names[j] == n;
                        if j == i {
                            assert(nn[i as int] == n);
                        } else {
                            assert(nn[j] == n);
                        }
                    }
                    assert forall|n: Str| #[trigger] nn.contains(n) implies n == k || names.contains(n) by {
                        let j = choose|j: int| 0 <= j < nn.len() && nn[j] == n;
                        if j != i {
                            assert(names[j] == n);
                        }
                    }
                }
                return;
            }
            i = i + 1;
        }
        let ghost k = impl_name@;
        let ghost before = self.handlers@;
        self.handlers.push((impl_name, handler));
        proof {
            lemma_first_handler_none(before, k);
            assert(self.handlers@.drop_last() =~= before);
            assert forall|m: Str| m != k implies #[trigger] first_handler(self.handlers@, m) == first_handler(before, m) by {}
            let nn = self.handler_names();
            assert(nn =~= names.push(k));
            assert(nn[names.len() as int] == k);
            assert forall|n: Str| names.contains(n) implies nn.contains(n) by {
                let j = choose|j: int| 0 <= j < names.len() && names[j] == n;
                assert(nn[j] == n);
            }
            assert forall|n: Str| #[trigger] nn.contains(n) implies n == k || names.contains(n) by {
                let j = choose|j: int| 0 <= j < nn.len() && nn[j] == n;
                if j < names.len() {
                    assert(names[j] == n);
                }
            }
        }
    }

    /// Execute a full document, returning the final text output.
    pub fn execute(&self, doc: &Document) -> (r: Result<String, ExecutionError>)
        requires
            all_retries_bounded(doc@.nodes),
        ensures
            exists|ans: Seq<Answer>|
                (#[trigger] run_list(self.registry_model(), self.handler_names(), doc@.nodes, FailureMode::Halt, None, ans)).outcome
                    == outcome_of(r) && self.answers_fit(
                    Trace {
                        answers: ans,
                        calls: run_list(self.registry_model(), self.handler_names(), doc@.nodes, FailureMode::Halt, None, ans).calls,
                    },
                ),
            quiet_outputs(self.registry_model(), self.handler_names(), doc@.nodes) matches Some(o) ==> (r matches Ok(t)
                && t@ == o),
    {
        let (r, t) = self.execute_list(&doc.nodes, FailureMode::Halt, None);
        proof {
            let run = run_list(self.registry_model(), self.handler_names(), doc@.nodes, FailureMode::Halt, None, t@.answers);
            assert(run.outcome == outcome_of(r));
            assert(self.answers_fit(Trace { answers: t@.answers, calls: run.calls }));
            if quiet_outputs(self.registry_model(), self.handler_names(), doc@.nodes) is Some {
                law_quiet_list_runs_alike(self.registry_model(), self.handler_names(), doc@.nodes, FailureMode::Halt, None, t@.answers);
            }
        }
        r
    }

    /// Execute a single node, returning its text contribution and what the handlers went
    /// through.
    fn execute_node(&self, node: &Node) -> (res: (Result<String, ExecutionError>, Ghost<Trace>))
        requires
            retries_bounded(node@),
        ensures
            run_node(self.registry_model(), self.handler_names(), node@, res.1@.answers) == (Run {
                outcome: outcome_of(res.0),
                calls: res.1@.calls,
            }),
            res.1@.answers.len() == res.1@.calls.len(),
            self.answers_fit(res.1@),
        decreases node, 2nat,
    {
        match node {
            Node::Text(text) => (Ok(text.clone()), Ghost(Trace { answers: Seq::empty(), calls: Seq::empty() })),
            Node::Directive { kind, children, .. } => {
                // Directives pass through: the children run and their output is joined;
                // tool constraints, session isolation and agent delegation are the
                // harness's business.
                let on_failure = match kind {
                    DirectiveKind::Session(s) => match s.on_failure {
                        Some(m) => m,
                        None => FailureMode::Halt,
                    },
                    DirectiveKind::Agent(a) => match a.on_failure {
                        Some(m) => m,
                        None => FailureMode::Halt,
                    },
                    DirectiveKind::Tool(_) => FailureMode::Halt,
                };
                self.execute_list(children, on_failure, None)
            },
            Node::Skill { kind, params, children, .. } => {
                match kind {
                    NodeKind::Invocation {
                        interface,
                        impl_name,
                        name,
                        language,
                        framework,
                        retries,
                        on_failure,
                        policy,
                        ..
                    } => {
                        let policy = match policy {
                            Some(p) => *p,
                            None => ExecutionPolicy::BottomUp,
                        };
                        let on_failure = match on_failure {
                            Some(m) => *m,
                            None => FailureMode::Halt,
                        };
                        let max_retries = match retries {
                            Some(r) => *r,
                            None => 0,
                        };
                        self.execute_invocation(
                            opt_str(interface),
                            opt_str(impl_name),
                            opt_str(name),
                            opt_str(language),
                            opt_str(framework),
                            params,
                            children,
                            policy,
                            on_failure,
                            max_retries,
                        )
                    },
                    _ => (Ok(String::new()), Ghost(Trace { answers: Seq::empty(), calls: Seq::empty() })),
                }
            },
        }
    }

    /// Resolve an invocation, prepare its scope by its policy, and run its handler with
    /// retries; once every attempt failed, the failure mode decides.
    fn execute_invocation(
        &self,
        interface: Option<&str>,
        impl_name: Option<&str>,
        name: Option<&str>,
        language: Option<&str>,
        framework: Option<&str>,
        params: &Vec<Param>,
        children: &Vec<Node>,
        policy: ExecutionPolicy,
        on_failure: FailureMode,
        max_retries: u32,
    ) -> (res: (Result<String, ExecutionError>, Ghost<Trace>))
        requires
            max_retries < u32::MAX,
            all_retries_bounded(Node::models(children@)),
        ensures
            run_invocation(
                self.registry_model(),
                self.handler_names(),
                (
                    opt_str_view(interface),
                    opt_str_view(impl_name),
                    opt_str_view(name),
                    opt_str_view(language),
                    opt_str_view(framework),
                ),
                param_map(params.deep_view()),
                Node::models(children@),
                policy,
                on_failure,
                max_retries,
                res.1@.answers,
            ) == (Run { outcome: outcome_of(res.0), calls: res.1@.calls }),
            res.1@.answers.len() == res.1@.calls.len(),
            self.answers_fit(res.1@),
        decreases children, 1nat,
    {
        let ghost reg = self.registry_model();
        let ghost hs = self.handler_names();
        let ghost ns = Node::models(children@);
        let ghost pm = param_map(params.deep_view());
        let hints = ResolutionHints {
            language: match language {
                Some(l) => Some(l.to_string()),
                None => None,
            },
            framework: match framework {
                Some(f) => Some(f.to_string()),
                None => None,
            },
        };
        assert(crate::ast::opt_view(hints.language) == opt_str_view(language));
        assert(crate::ast::opt_view(hints.framework) == opt_str_view(framework));
        let resolved = match resolve(&self.registry, interface, impl_name, name, &hints) {
            Ok(e) => e,
            Err(e) => {
                let none = Ghost(Trace { answers: Seq::empty(), calls: Seq::empty() });
                return match on_failure {
                    FailureMode::Halt => (Err(ExecutionError::ResolutionFailed(e)), none),
                    FailureMode::Skip => (Ok(String::new()), none),
                    FailureMode::Partial => (Ok(join3("[FAILED: ", e.to_string().as_str(), "]")), none),
                };
            },
        };
        let chosen = resolved.name.as_str();
        let ghost mut t0 = Trace { answers: Seq::empty(), calls: Seq::empty() };
        let scope_content = match policy {
            ExecutionPolicy::Wrapper => self.children_as_text(children),
            _ => {
                let (sr, t) = self.execute_list(children, on_failure, Some(chosen));
                proof {
                    t0 = t@;
                }
                match sr {
                    Ok(s) => s,
                    Err(e) => {
                        return (Err(e), t);
                    },
                }
            },
        };
        let param_list = params.as_slice();
        let params_map = params_to_map(param_list);
        let ghost call = HandlerCall { impl_name: chosen@, params: pairs_map(pairs_view(params_map@)), scope: scope_content@ };
        proof {
            assert(param_list@.map_values(|p: Param| p@) =~= params.deep_view());
            lemma_param_map(pairs_view(params_map@), params.deep_view());
        }
        let ghost quiet = !hs.contains(chosen@);
        let ghost mut tries: Seq<Answer> = Seq::empty();
        let mut last_error: Option<String> = None;
        let mut attempt: u64 = 0;
        while attempt <= max_retries as u64
            invariant
                max_retries < u32::MAX,
                hs == self.handler_names(),
                quiet == !hs.contains(chosen@),
                quiet ==> attempt == 0,
                call.scope == scope_content@,
                call.impl_name == chosen@,
                call.params == param_map(params.deep_view()),
                chosen@ == resolved.name@,
                resolution(
                    self.registry_model(),
                    opt_str_view(interface),
                    opt_str_view(impl_name),
                    opt_str_view(name),
                    opt_str_view(language),
                    opt_str_view(framework),
                ) == Ok::<crate::registry::SpecImplementationEntry, crate::resolver::SpecResolveError>(resolved@),
                policy == ExecutionPolicy::Wrapper ==> t0.answers.len() == 0 && t0.calls.len() == 0 && scope_content@
                    == children_text(Node::models(children@)),
                policy != ExecutionPolicy::Wrapper ==> run_list(
                    self.registry_model(),
                    self.handler_names(),
                    Node::models(children@),
                    on_failure,
                    Some(chosen@),
                    t0.answers,
                ) == (Run { outcome: Ok(scope_content@), calls: t0.calls }),
                t0.answers.len() == t0.calls.len(),
                tries.len() == attempt,
                attempt <= max_retries + 1,
                forall|j: int| 0 <= j < tries.len() ==> !attempt_of(#[trigger] tries[j]).0,
                forall|j: int| 0 <= j < tries.len() ==> self.answers_call(call, #[trigger] tries[j]),
                attempt >= 1 ==> (last_error matches Some(m) && m@ == attempt_of(tries.last()).1),
                self.answers_fit(t0),
                call.params == pairs_map(pairs_view(params_map@)),
            decreases max_retries as u64 + 1 - attempt,
        {
            let answer = self.invoke_handler(chosen, &params_map, scope_content.as_str());
            let ghost a = answer;
            proof {
                self.lemma_names_handler(chosen@);
            }
            match settle_attempt(answer) {
                Attempt::Done(text) => {
                    let ghost h = if quiet {
                        Trace { answers: Seq::empty(), calls: Seq::empty() }
                    } else {
                        Trace { answers: tries.push(a), calls: Seq::new((attempt + 1) as nat, |j: int| call) }
                    };
                    proof {
                        if !quiet {
                            assert forall|j: int| 0 <= j < h.answers.len() - 1 implies !attempt_of(#[trigger] h.answers[j]).0 by {
                                assert(h.answers[j] == tries[j]);
                            }
                            lemma_attempts_result(call, on_failure, max_retries, h.answers, 0);
                            assert forall|j: int| 0 <= j < h.calls.len() implies self.answers_call(#[trigger] h.calls[j], h.answers[j]) by {
                                if j < tries.len() {
                                    assert(h.answers[j] == tries[j]);
                                }
                            }
                        }
                        assert(self.answers_fit(h));
                        self.lemma_fits_concat(t0, h);
                        self.lemma_invocation_composed(interface, impl_name, name, language, framework, params, children, policy, on_failure, max_retries, chosen@, t0, call, h);
                    }
                    return (Ok(text), Ghost(Trace { answers: t0.answers + h.answers, calls: t0.calls + h.calls }));
                },
                Attempt::Failed(msg) => {
                    proof {
                        tries = tries.push(a);
                    }
                    last_error = Some(msg);
                },
            }
            attempt = attempt + 1;
        }
        let r = exhausted(on_failure, chosen, last_error, max_retries);
        let ghost h = Trace { answers: tries, calls: Seq::new((max_retries + 1) as nat, |j: int| call) };
        proof {
            lemma_attempts_result(call, on_failure, max_retries, tries, 0);
            assert(self.answers_fit(h));
            self.lemma_fits_concat(t0, h);
            self.lemma_invocation_composed(interface, impl_name, name, language, framework, params, children, policy, on_failure, max_retries, chosen@, t0, call, h);
        }
        (r, Ghost(Trace { answers: t0.answers + h.answers, calls: t0.calls + h.calls }))
    }

    /// Run `children` in order and join their output; a failing child is handled by the
    /// failure mode, and reported as a failure of a child of `parent` where there is one.
    fn execute_list(&self, children: &Vec<Node>, on_failure: FailureMode, parent: Option<&str>) -> (res: (Result<String, ExecutionError>, Ghost<Trace>))
        requires
            all_retries_bounded(Node::models(children@)),
        ensures
            run_list(
                self.registry_model(),
                self.handler_names(),
                Node::models(children@),
                on_failure,
                opt_str_view(parent),
                res.1@.answers,
            ) == (Run { outcome: outcome_of(res.0), calls: res.1@.calls }),
            res.1@.answers.len() == res.1@.calls.len(),
            self.answers_fit(res.1@),
        decreases children, 0nat,
    {
        let ghost reg = self.registry_model();
        let ghost hs = self.handler_names();
        let ghost ns = Node::models(children@);
        let ghost pv = opt_str_view(parent);
        let mut output = String::new();
        let ghost mut tr = Trace { answers: Seq::empty(), calls: Seq::empty() };
        let mut i: usize = 0;
        assert(ns.take(0) =~= Seq::<SpecNode>::empty());
        while i < children.len()
            invariant
                0 <= i <= children@.len(),
                ns == Node::models(children@),
                reg == self.registry_model(),
                hs == self.handler_names(),
                pv == opt_str_view(parent),
                all_retries_bounded(ns),
                run_list(reg, hs, ns.take(i as int), on_failure, pv, tr.answers) == (Run { outcome: Ok(output@), calls: tr.calls }),
                tr.answers.len() == tr.calls.len(),
                self.answers_fit(tr),
            decreases children@.len() - i,
        {
            proof {
                lemma_all_bounded(ns, i as int);
                assert(ns[i as int] == children@[i as int]@);
            }
            let (r, t) = self.execute_node(&children[i]);
            let ghost before = tr;
            proof {
                let a2 = before.answers + t@.answers;
                assert(agree(before.answers, a2, before.answers.len() as int));
                lemma_list_frame(reg, hs, ns.take(i as int), on_failure, pv, before.answers, a2);
                assert(ns.take(i + 1).drop_last() =~= ns.take(i as int));
                assert(ns.take(i + 1).last() == ns[i as int]);
                assert(a2.skip(before.answers.len() as int) =~= t@.answers);
                self.lemma_fits_concat(before, t@);
                tr = Trace { answers: a2, calls: before.calls + t@.calls };
            }
            match r {
                Ok(text) => output.append(text.as_str()),
                Err(e) => match on_failure {
                    FailureMode::Halt => {
                        proof {
                            lemma_list_failure_extends(reg, hs, ns, on_failure, pv, tr.answers, i + 1);
                        }
                        match parent {
                            None => {
                                return (Err(e), Ghost(tr));
                            },
                            Some(p) => {
                                return (
                                    Err(ExecutionError::ChildFailed { skill: p.to_string(), child_error: Box::new(e) }),
                                    Ghost(tr),
                                );
                            },
                        }
                    },
                    FailureMode::Skip => {},
                    FailureMode::Partial => {
                        match parent {
                            None => output.append("[DIRECTIVE FAILED: "),
                            Some(_) => output.append("[CHILD FAILED: "),
                        }
                        output.append(e.to_string().as_str());
                        output.append("]");
                    },
                },
            }
            i = i + 1;
        }
        assert(ns.take(children@.len() as int) =~= ns);
        (Ok(output), Ghost(tr))
    }

    /// How the parts of an invocation make up its run: the children's trace `t0` (empty
    /// under the wrapper policy) and the handler's trace `h` for `call`.
    proof fn lemma_invocation_composed(
        &self,
        interface: Option<&str>,
        impl_name: Option<&str>,
        name: Option<&str>,
        language: Option<&str>,
        framework: Option<&str>,
        params: &Vec<Param>,
        children: &Vec<Node>,
        policy: ExecutionPolicy,
        on_failure: FailureMode,
        max_retries: u32,
        chosen: Str,
        t0: Trace,
        call: HandlerCall,
        h: Trace,
    )
        requires
            resolution(
                self.registry_model(),
                opt_str_view(interface),
                opt_str_view(impl_name),
                opt_str_view(name),
                opt_str_view(language),
                opt_str_view(framework),
            ) matches Ok(entry) && entry.name == chosen,
            call.impl_name == chosen,
            call.params == param_map(params.deep_view()),
            policy == ExecutionPolicy::Wrapper ==> t0.answers.len() == 0 && t0.calls.len() == 0 && call.scope == children_text(
                Node::models(children@),
            ),
            policy != ExecutionPolicy::Wrapper ==> run_list(
                self.registry_model(),
                self.handler_names(),
                Node::models(children@),
                on_failure,
                Some(chosen),
                t0.answers,
            ) == (Run { outcome: Ok(call.scope), calls: t0.calls }),
            t0.answers.len() == t0.calls.len(),
            handled(self.handler_names(), call, on_failure, max_retries, h.answers).calls == h.calls,
        ensures
            run_invocation(
                self.registry_model(),
                self.handler_names(),
                (
                    opt_str_view(interface),
                    opt_str_view(impl_name),
                    opt_str_view(name),
                    opt_str_view(language),
                    opt_str_view(framework),
                ),
                param_map(params.deep_view()),
                Node::models(children@),
                policy,
                on_failure,
                max_retries,
                t0.answers + h.answers,
            ) == (Run {
                outcome: handled(self.handler_names(), call, on_failure, max_retries, h.answers).outcome,
                calls: t0.calls + h.calls,
            }),
    {
        let a = t0.answers + h.answers;
        if policy == ExecutionPolicy::Wrapper {
            assert(a =~= h.answers);
            assert(t0.calls + h.calls =~= h.calls);
        } else {
            assert(agree(t0.answers, a, t0.answers.len() as int));
            lemma_list_frame(
                self.registry_model(),
                self.handler_names(),
                Node::models(children@),
                on_failure,
                Some(chosen),
                t0.answers,
                a,
            );
            assert(a.skip(t0.calls.len() as int) =~= h.answers);
        }
    }

    /// The children as text, for the wrapper policy: text as is, nested skills and
    /// directives as markers.
    #[verifier::spinoff_prover]
    #[verifier::rlimit(30)]
    fn children_as_text(&self, children: &Vec<Node>) -> (s: String)
        ensures
            s@ == children_text(Node::models(children@)),
    {
        proof {
            reveal_strlit("[nested-skill]");
            reveal_strlit("[nested-directive]");
        }
        let ghost ns = Node::models(children@);
        let mut output = String::new();
        let mut i: usize = 0;
        assert(ns.take(0) =~= Seq::<SpecNode>::empty());
        while i < children.len()
            invariant
                0 <= i <= children@.len(),
                ns == Node::models(children@),
                output@ == children_text(ns.take(i as int)),
            decreases children@.len() - i,
        {
            assert(ns.take(i + 1).drop_last() =~= ns.take(i as int));
            assert(ns.take(i + 1).last() == children@[i as int]@);
            match &children[i] {
                Node::Text(t) => output.append(t.as_str()),
                Node::Skill { .. } => output.append("[nested-skill]"),
                Node::Directive { .. } => output.append("[nested-directive]"),
            }
            i = i + 1;
        }
        assert(ns.take(children@.len() as int) =~= ns);
        output
    }

    /// Run the handler registered for `impl_name`; without one, the scope passes through.
    fn invoke_handler(&self, impl_name: &str, params: &Vec<(String, String)>, scope: &str) -> (r: Result<SkillResult, String>)
        ensures
            match self.handler_of(impl_name@) {
                Some(h) => h.may_answer(impl_name@, pairs_map(pairs_view(params@)), scope@, r),
                None => r matches Ok(res) && res.text@ == scope@ && res.status == SkillStatus::Success
                    && res.metadata@.len() == 0,
            },
            !self.handler_names().contains(impl_name@) ==> (r matches Ok(res) && res.text@ == scope@
                && res.status == SkillStatus::Success && res.metadata@.len() == 0),
    {
        proof {
            self.lemma_names_handler(impl_name@);
            lemma_first_handler_none(self.handlers@, impl_name@);
        }
        let mut i: usize = 0;
        while i < self.handlers.len()
            invariant
                0 <= i <= self.handlers@.len(),
                forall|j: int| 0 <= j < i ==> self.handlers@[j].0@ != impl_name@,
            decreases self.handlers@.len() - i,
        {
            if str_eq(self.handlers[i].0.as_str(), impl_name) {
                proof {
                    assert(self.handler_names()[i as int] == impl_name@);
                    lemma_first_handler_at(self.handlers@, i as int, impl_name@);
                }
                return self.handlers[i].1.handle(impl_name, params, scope);
            }
            i = i + 1;
        }
        Ok(SkillResult { text: scope.to_string(), metadata: Vec::new(), status: SkillStatus::Success })
    }
}

impl Clone for ExecutionError {
    fn clone(&self) -> (r: Self)
        ensures
            exec_message(r) == exec_message(*self),
    {
        self.duplicate()
    }
}

/// An optional string as a borrowed one.
pub fn opt_str(o: &Option<String>) -> (r: Option<&str>)
    ensures
        crate::resolver::opt_str_view(r) == crate::ast::opt_view(*o),
{
    match o {
        Some(s) => Some(s.as_str()),
        None => None,
    }
}

/// The message of an execution error.
pub open spec fn failure_message(f: ExecFailure) -> Str
    decreases f,
{
    match f {
        ExecFailure::ResolutionFailed(x) => "resolution failed: "@ + crate::resolver::resolve_message(x) + ""@,
        ExecFailure::HandlerError { skill, message } => "skill '"@ + skill + "' handler error: "@ + message,
        ExecFailure::RetriesExhausted { skill, attempts } => "skill '"@ + skill + "' failed after "@
            + crate::text::decimal(attempts as nat) + " attempts"@,
        ExecFailure::ChildFailed { skill, child } => "child of '"@ + skill + "' failed: "@ + failure_message(*child),
    }
}

/// The message of an execution error.
pub open spec fn exec_message(e: ExecutionError) -> Str {
    failure_message(failure_of(e))
}

impl ExecutionError {
    /// A copy of the error.
    pub fn duplicate(&self) -> (r: Self)
        ensures
            failure_of(r) == failure_of(*self),
        decreases self,
    {
        match self {
            ExecutionError::ResolutionFailed(e) => ExecutionError::ResolutionFailed(e.duplicate()),
            ExecutionError::HandlerError { skill, message } => ExecutionError::HandlerError {
                skill: skill.clone(),
                message: message.clone(),
            },
            ExecutionError::RetriesExhausted { skill, attempts } => ExecutionError::RetriesExhausted {
                skill: skill.clone(),
                attempts: *attempts,
            },
            ExecutionError::ChildFailed { skill, child_error } => ExecutionError::ChildFailed {
                skill: skill.clone(),
                child_error: Box::new(child_error.duplicate()),
            },
        }
    }

    /// The error message.
    pub fn to_string(&self) -> (s: String)
        ensures
            s@ == exec_message(*self),
        decreases self,
    {
        match self {
            ExecutionError::ResolutionFailed(e) => join3("resolution failed: ", e.to_string().as_str(), ""),
            ExecutionError::HandlerError { skill, message } => {
                let mut s = join3("skill '", skill.as_str(), "' handler error: ");
                s.append(message.as_str());
                s
            },
            ExecutionError::RetriesExhausted { skill, attempts } => {
                let mut s = join3("skill '", skill.as_str(), "' failed after ");
                s.append(crate::text::usize_to_string(*attempts as usize).as_str());
                s.append(" attempts");
                s
            },
            ExecutionError::ChildFailed { skill, child_error } => {
                let inner = child_error.to_string();
                let mut s = join3("child of '", skill.as_str(), "' failed: ");
                s.append(inner.as_str());
                s
            },
        }
    }
}

} // verus!
