//! The macro data model: plain value types for a macro, its initiators and
//! its execution tree, together with their mathematical views.
//!
//! The shapes are deliberately permissive: each node carries a kind tag and a
//! payload of optional fields, and nothing checks at construction time that
//! the fields a kind needs are present.  A missing field surfaces only when
//! the interpreter reaches the node, as an error for that run (see the
//! `interp` module); an unrecognized kind fails the run the same way.
//!
//! The views (`ExecutionView`, `InitiatorView`, `MacroView`, ...) replace
//! each vector by a `Seq` and otherwise keep the structure; all contracts in
//! this crate speak of them.  Every model type implements `Clone` with a
//! contract: cloning preserves the view (for types without nested vectors,
//! the value itself), so a caller holding a snapshot of a macro set owns a
//! value that no later change to the registry can reach.

use vstd::prelude::*;

verus! {

/// A named automation: initiators that trigger it and the tree they run.
#[derive(Debug)]
pub struct Macro {
    pub name: String,
    pub description: String,
    pub body: MacroBody,
}

/// The two declared parts of a macro.  `functions` are stored but never
/// invoked by the interpreter.
#[derive(Debug)]
pub struct MacroBody {
    pub initiators: Option<Vec<Initiator>>,
    pub functions: Option<Vec<Function>>,
}

/// The kind tag of an initiator.  Only key chords are interpreted; any other
/// kind is carried along and never matches.
#[derive(PartialEq, Eq, Structural, Clone, Copy, Debug)]
pub enum InitiatorKind {
    Keypress,
    Unknown,
}

/// A trigger definition bound to an execution tree.
#[derive(Debug)]
pub struct Initiator {
    pub kind: InitiatorKind,
    pub data: InitiatorData,
    pub executes: Vec<Execution>,
}

/// Payload of an initiator; which fields matter depends on the kind.  For a
/// keypress initiator only `keys` is read; the rest is reserved.
#[derive(Debug)]
pub struct InitiatorData {
    pub keys: Option<Vec<String>>,
    pub activate_time: Option<String>,
    pub time: Option<InitiatorKeypressTime>,
    pub cron: Option<String>,
    pub app_path: Option<String>,
}

/// Reserved timing bounds of a keypress initiator, in milliseconds.
#[derive(PartialEq, Eq, Structural, Clone, Copy, Debug)]
pub struct InitiatorKeypressTime {
    pub min_ms: i64,
    pub max_ms: i64,
}

/// The kind tag of an execution-tree node.
#[derive(PartialEq, Eq, Structural, Clone, Copy, Debug)]
pub enum ExecutionKind {
    Wait,
    Notification,
    FromToLoop,
    WhileLoop,
    If,
    Stop,
    Unknown,
}

/// One node of the execution tree: a kind tag, its optional payload, the
/// loop-variable declarations, and the nested child bodies.
///
/// Nesting happens only through the child bodies in `code_inside`; no node
/// holds another node directly.
#[derive(Debug)]
pub struct Execution {
    pub kind: ExecutionKind,
    pub data: ExecutionData,
    pub variables: Vec<VariableDecl>,
    pub code_inside: ExecutionCodeInside,
}

/// Payload of an execution node; which fields matter depends on the kind.
/// `time_ms` is the wait time in milliseconds; `from`, `to` and `step` drive
/// a counted loop; `title` and `message` are template strings.
#[derive(Debug)]
pub struct ExecutionData {
    pub time_ms: Option<u64>,
    pub title: Option<String>,
    pub message: Option<String>,
    pub from: Option<i64>,
    pub to: Option<i64>,
    pub step: Option<i64>,
    pub condition: Option<Condition>,
}

/// The kind tag of a loop-variable declaration; the counted loop binds the
/// last declaration of kind `Value`.
#[derive(PartialEq, Eq, Structural, Clone, Copy, Debug)]
pub enum VariableKind {
    Value,
    Unknown,
}

/// A loop-variable declaration on an execution node.
#[derive(Debug)]
pub struct VariableDecl {
    pub kind: VariableKind,
    pub name: String,
}

/// The kind tag of a condition.  Only literal values are implemented; the
/// enum is the extension point for a future expression language.
#[derive(PartialEq, Eq, Structural, Clone, Copy, Debug)]
pub enum ConditionKind {
    Value,
    Unknown,
}

/// A condition: currently a literal boolean, absent meaning `false`.
#[derive(Debug)]
pub struct Condition {
    pub kind: ConditionKind,
    pub value: Option<bool>,
}

/// The nested child bodies of a node: `loop_body` for the counted loop,
/// `then_body` for the conditional loop and the taken branch, `else_body`
/// for the untaken branch.  An absent body reads as empty.
#[derive(Debug)]
pub struct ExecutionCodeInside {
    pub loop_body: Option<ExecutionWrapper>,
    pub then_body: Option<ExecutionWrapper>,
    pub else_body: Option<ExecutionWrapper>,
}

/// A list of sibling nodes, run top to bottom.
#[derive(Debug)]
pub struct ExecutionWrapper {
    pub executes: Vec<Execution>,
}

/// A declared (never invoked) user function of a macro.
#[derive(Debug)]
pub struct Function {
    pub name: String,
    pub parameters: Vec<Parameter>,
    pub executes: Vec<Execution>,
}

/// A parameter of a declared user function.
#[derive(Debug)]
pub struct Parameter {
    pub name: String,
    pub kind: String,
    pub default_value: String,
}

/// Mathematical form of an execution node: vectors become sequences.
pub ghost struct ExecutionView {
    pub kind: ExecutionKind,
    pub data: ExecutionData,
    pub variables: Seq<VariableDecl>,
    pub code_inside: CodeInsideView,
}

/// Mathematical form of the child bodies of a node.
pub ghost struct CodeInsideView {
    pub loop_body: Option<Seq<ExecutionView>>,
    pub then_body: Option<Seq<ExecutionView>>,
    pub else_body: Option<Seq<ExecutionView>>,
}

/// Mathematical form of an initiator.
pub ghost struct InitiatorView {
    pub kind: InitiatorKind,
    pub keys: Option<Seq<String>>,
    pub activate_time: Option<String>,
    pub time: Option<InitiatorKeypressTime>,
    pub cron: Option<String>,
    pub app_path: Option<String>,
    pub executes: Seq<ExecutionView>,
}

/// Mathematical form of a declared user function.
pub ghost struct FunctionView {
    pub name: String,
    pub parameters: Seq<Parameter>,
    pub executes: Seq<ExecutionView>,
}

/// Mathematical form of a macro.
pub ghost struct MacroView {
    pub name: String,
    pub description: String,
    pub initiators: Option<Seq<InitiatorView>>,
    pub functions: Option<Seq<FunctionView>>,
}

pub open spec fn execution_view(e: Execution) -> ExecutionView
    decreases e,
{
    ExecutionView {
        kind: e.kind,
        data: e.data,
        variables: e.variables@,
        code_inside: CodeInsideView {
            loop_body: opt_body_view(e.code_inside.loop_body),
            then_body: opt_body_view(e.code_inside.then_body),
            else_body: opt_body_view(e.code_inside.else_body),
        },
    }
}

pub open spec fn opt_body_view(w: Option<ExecutionWrapper>) -> Option<Seq<ExecutionView>>
    decreases w,
{
    match w {
        Some(inner) => Some(execution_seq_view(inner.executes@)),
        None => None,
    }
}

pub open spec fn execution_seq_view(s: Seq<Execution>) -> Seq<ExecutionView>
    decreases s,
{
    if s.len() == 0 {
        Seq::empty()
    } else {
        seq![execution_view(s[0])].add(execution_seq_view(s.drop_first()))
    }
}

/// `execution_seq_view` maps `execution_view` over the sequence.
pub proof fn lemma_execution_seq_view(s: Seq<Execution>)
    ensures
        execution_seq_view(s).len() == s.len(),
        forall|i: int|
            0 <= i < s.len() ==> #[trigger] execution_seq_view(s)[i] == execution_view(s[i]),
    decreases s.len(),
{
    if s.len() > 0 {
        lemma_execution_seq_view(s.drop_first());
        assert forall|i: int| 0 <= i < s.len() implies #[trigger] execution_seq_view(s)[i]
            == execution_view(s[i]) by {
            if i > 0 {
                assert(execution_seq_view(s)[i] == execution_seq_view(s.drop_first())[i - 1]);
                assert(s.drop_first()[i - 1] == s[i]);
            }
        }
    }
}

/// Sequences of nodes with equal element views have equal views.
pub proof fn lemma_execution_seq_view_congruence(a: Seq<Execution>, b: Seq<Execution>)
    requires
        a.len() == b.len(),
        forall|i: int| 0 <= i < a.len() ==> execution_view(#[trigger] a[i]) == execution_view(b[i]),
    ensures
        execution_seq_view(a) == execution_seq_view(b),
{
    lemma_execution_seq_view(a);
    lemma_execution_seq_view(b);
    assert(execution_seq_view(a) =~= execution_seq_view(b));
}

pub open spec fn initiator_view(i: Initiator) -> InitiatorView {
    InitiatorView {
        kind: i.kind,
        keys: match i.data.keys {
            Some(v) => Some(v@),
            None => None,
        },
        activate_time: i.data.activate_time,
        time: i.data.time,
        cron: i.data.cron,
        app_path: i.data.app_path,
        executes: execution_seq_view(i.executes@),
    }
}

pub open spec fn function_view(f: Function) -> FunctionView {
    FunctionView {
        name: f.name,
        parameters: f.parameters@,
        executes: execution_seq_view(f.executes@),
    }
}

pub open spec fn initiator_seq_view(s: Seq<Initiator>) -> Seq<InitiatorView> {
    Seq::new(s.len(), |i: int| initiator_view(s[i]))
}

pub open spec fn function_seq_view(s: Seq<Function>) -> Seq<FunctionView> {
    Seq::new(s.len(), |i: int| function_view(s[i]))
}

pub open spec fn body_initiators_view(b: MacroBody) -> Option<Seq<InitiatorView>> {
    match b.initiators {
        Some(v) => Some(initiator_seq_view(v@)),
        None => None,
    }
}

pub open spec fn body_functions_view(b: MacroBody) -> Option<Seq<FunctionView>> {
    match b.functions {
        Some(v) => Some(function_seq_view(v@)),
        None => None,
    }
}

pub open spec fn macro_view(m: Macro) -> MacroView {
    MacroView {
        name: m.name,
        description: m.description,
        initiators: body_initiators_view(m.body),
        functions: body_functions_view(m.body),
    }
}

pub open spec fn macro_seq_view(s: Seq<Macro>) -> Seq<MacroView> {
    Seq::new(s.len(), |i: int| macro_view(s[i]))
}

impl View for Execution {
    type V = ExecutionView;

    open spec fn view(&self) -> ExecutionView {
        execution_view(*self)
    }
}

impl View for Initiator {
    type V = InitiatorView;

    open spec fn view(&self) -> InitiatorView {
        initiator_view(*self)
    }
}

impl View for Macro {
    type V = MacroView;

    open spec fn view(&self) -> MacroView {
        macro_view(*self)
    }
}

impl Clone for Condition {
    fn clone(&self) -> (r: Self)
        ensures
            r == *self,
    {
        Condition { kind: self.kind, value: self.value }
    }
}

impl Clone for VariableDecl {
    fn clone(&self) -> (r: Self)
        ensures
            r == *self,
    {
        VariableDecl { kind: self.kind, name: self.name.clone() }
    }
}

impl Clone for ExecutionData {
    fn clone(&self) -> (r: Self)
        ensures
            r == *self,
    {
        ExecutionData {
            time_ms: self.time_ms,
            title: clone_opt_string(&self.title),
            message: clone_opt_string(&self.message),
            from: self.from,
            to: self.to,
            step: self.step,
            condition: self.condition.clone(),
        }
    }
}

fn clone_opt_string(s: &Option<String>) -> (r: Option<String>)
    ensures
        r == *s,
{
    match s {
        Some(v) => Some(v.clone()),
        None => None,
    }
}

fn clone_variable_decls(v: &Vec<VariableDecl>) -> (r: Vec<VariableDecl>)
    ensures
        r@ == v@,
{
    let c = v.clone();
    proof {
        assert(c@ =~= v@);
    }
    c
}

fn clone_execution_vec(v: &Vec<Execution>) -> (r: Vec<Execution>)
    ensures
        execution_seq_view(r@) == execution_seq_view(v@),
        r@.len() == v@.len(),
    decreases v@,
{
    let mut r: Vec<Execution> = Vec::new();
    let n = v.len();
    let mut i: usize = 0;
    while i < n
        invariant
            n == v@.len(),
            i <= n,
            r@.len() == i,
            forall|j: int|
                0 <= j < i ==> execution_view(#[trigger] r@[j]) == execution_view(v@[j]),
        decreases n - i,
    {
        r.push(clone_execution(&v[i]));
        i = i + 1;
    }
    proof {
        lemma_execution_seq_view_congruence(r@, v@);
    }
    r
}

fn clone_opt_wrapper(w: &Option<ExecutionWrapper>) -> (r: Option<ExecutionWrapper>)
    ensures
        opt_body_view(r) == opt_body_view(*w),
    decreases *w,
{
    match w {
        Some(inner) => Some(ExecutionWrapper { executes: clone_execution_vec(&inner.executes) }),
        None => None,
    }
}

fn clone_execution(e: &Execution) -> (r: Execution)
    ensures
        execution_view(r) == execution_view(*e),
    decreases *e,
{
    Execution {
        kind: e.kind,
        data: e.data.clone(),
        variables: clone_variable_decls(&e.variables),
        code_inside: ExecutionCodeInside {
            loop_body: clone_opt_wrapper(&e.code_inside.loop_body),
            then_body: clone_opt_wrapper(&e.code_inside.then_body),
            else_body: clone_opt_wrapper(&e.code_inside.else_body),
        },
    }
}

impl Clone for ExecutionWrapper {
    fn clone(&self) -> (r: Self)
        ensures
            execution_seq_view(r.executes@) == execution_seq_view(self.executes@),
    {
        ExecutionWrapper { executes: clone_execution_vec(&self.executes) }
    }
}

impl Clone for Execution {
    fn clone(&self) -> (r: Self)
        ensures
            r@ == self@,
    {
        clone_execution(self)
    }
}

impl Clone for InitiatorData {
    fn clone(&self) -> (r: Self)
        ensures
            r.keys is Some <==> self.keys is Some,
            r.keys is Some ==> r.keys->0@ == self.keys->0@,
            r.activate_time == self.activate_time,
            r.time == self.time,
            r.cron == self.cron,
            r.app_path == self.app_path,
    {
        let keys = match &self.keys {
            Some(v) => {
                let c = v.clone();
                proof {
                    assert(c@ =~= v@);
                }
                Some(c)
            },
            None => None,
        };
        InitiatorData {
            keys,
            activate_time: clone_opt_string(&self.activate_time),
            time: self.time,
            cron: clone_opt_string(&self.cron),
            app_path: clone_opt_string(&self.app_path),
        }
    }
}

impl Clone for Initiator {
    fn clone(&self) -> (r: Self)
        ensures
            r@ == self@,
    {
        Initiator {
            kind: self.kind,
            data: self.data.clone(),
            executes: clone_execution_vec(&self.executes),
        }
    }
}

impl Clone for Parameter {
    fn clone(&self) -> (r: Self)
        ensures
            r == *self,
    {
        Parameter {
            name: self.name.clone(),
            kind: self.kind.clone(),
            default_value: self.default_value.clone(),
        }
    }
}

impl Clone for Function {
    fn clone(&self) -> (r: Self)
        ensures
            function_view(r) == function_view(*self),
    {
        let parameters = self.parameters.clone();
        proof {
            assert(parameters@ =~= self.parameters@);
        }
        Function {
            name: self.name.clone(),
            parameters,
            executes: clone_execution_vec(&self.executes),
        }
    }
}

fn clone_initiator_vec(v: &Vec<Initiator>) -> (r: Vec<Initiator>)
    ensures
        initiator_seq_view(r@) == initiator_seq_view(v@),
{
    let mut r: Vec<Initiator> = Vec::new();
    let n = v.len();
    let mut i: usize = 0;
    while i < n
        invariant
            n == v@.len(),
            i <= n,
            r@.len() == i,
            forall|j: int|
                0 <= j < i ==> initiator_view(#[trigger] r@[j]) == initiator_view(v@[j]),
        decreases n - i,
    {
        r.push(v[i].clone());
        i = i + 1;
    }
    proof {
        assert(initiator_seq_view(r@) =~= initiator_seq_view(v@));
    }
    r
}

fn clone_function_vec(v: &Vec<Function>) -> (r: Vec<Function>)
    ensures
        function_seq_view(r@) == function_seq_view(v@),
{
    let mut r: Vec<Function> = Vec::new();
    let n = v.len();
    let mut i: usize = 0;
    while i < n
        invariant
            n == v@.len(),
            i <= n,
            r@.len() == i,
            forall|j: int|
                0 <= j < i ==> function_view(#[trigger] r@[j]) == function_view(v@[j]),
        decreases n - i,
    {
        r.push(v[i].clone());
        i = i + 1;
    }
    proof {
        assert(function_seq_view(r@) =~= function_seq_view(v@));
    }
    r
}

impl Clone for MacroBody {
    fn clone(&self) -> (r: Self)
        ensures
            body_initiators_view(r) == body_initiators_view(*self),
            body_functions_view(r) == body_functions_view(*self),
    {
        let initiators = match &self.initiators {
            Some(v) => Some(clone_initiator_vec(v)),
            None => None,
        };
        let functions = match &self.functions {
            Some(v) => Some(clone_function_vec(v)),
            None => None,
        };
        MacroBody { initiators, functions }
    }
}

impl Clone for Macro {
    fn clone(&self) -> (r: Self)
        ensures
            r@ == self@,
    {
        Macro {
            name: self.name.clone(),
            description: self.description.clone(),
            body: self.body.clone(),
        }
    }
}

} // verus!
