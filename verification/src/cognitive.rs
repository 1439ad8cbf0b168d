//! The per-node step of the cognitive-complexity walk for each language
//! dialect: how a syntax node changes the nesting context (control-flow
//! nesting, nested-function depth, lambda nesting) and the running structural
//! increment, and which boolean operators under it start or continue a
//! boolean sequence. A dialect is given by the kind ids its grammar resolves
//! for the node kinds the step reads.

use vstd::prelude::*;

verus! {

/// The nesting context the cognitive walk carries down the tree.
#[derive(Clone, Copy, Debug, PartialEq, Eq, Structural)]
pub struct CogCtx {
    pub nesting: u32,
    pub depth: u32,
    pub lambda: u32,
}

/// The running cognitive state a step changes: the structural increment so
/// far and the boolean operator a boolean sequence is currently made of.
pub struct CogState {
    pub structural: u32,
    pub boolean_op: Option<u16>,
}

/// A syntax node as the step reads it: its kind id, the kind ids of its
/// ancestors (parent first), and those of its children in order.
pub struct CogNode {
    pub kind: u16,
    pub ancestors: Vec<u16>,
    pub children: Vec<u16>,
}

/// What one step does, in mathematical integers: the context passed to the
/// node's children, the new structural increment and boolean operator, and the
/// boolean operators among the node's children (in order) that the boolean
/// sequence evaluation receives.
pub struct CogStep {
    pub nesting: int,
    pub depth: int,
    pub lambda: int,
    pub structural: int,
    pub boolean_op: Option<u16>,
    pub booleans: Seq<u16>,
}

/// The step leaves everything as it was.
pub open spec fn unchanged(ctx: CogCtx, structural: u32, bop: Option<u16>) -> CogStep {
    CogStep {
        nesting: ctx.nesting as int,
        depth: ctx.depth as int,
        lambda: ctx.lambda as int,
        structural: structural as int,
        boolean_op: bop,
        booleans: Seq::empty(),
    }
}

/// A nesting construct: it costs one plus the current nesting, depth and
/// lambda nesting, nests its children one level deeper and ends any boolean
/// sequence.
pub open spec fn nesting_step(ctx: CogCtx, structural: u32) -> CogStep {
    CogStep {
        nesting: ctx.nesting + 1,
        depth: ctx.depth as int,
        lambda: ctx.lambda as int,
        structural: structural + ctx.nesting + ctx.depth + ctx.lambda + 1,
        boolean_op: None,
        booleans: Seq::empty(),
    }
}

/// The children of a node whose kind is `a` or `b`, in order.
pub open spec fn kinds_among(children: Seq<u16>, a: u16, b: u16) -> Seq<u16>
    decreases children.len(),
{
    if children.len() == 0 {
        Seq::empty()
    } else {
        let prev = kinds_among(children.drop_last(), a, b);
        let c = children.last();
        if c == a || c == b { prev.push(c) } else { prev }
    }
}

/// The children of a node whose kind is in `a` or in `b`, in order.
pub open spec fn kinds_among_sets(children: Seq<u16>, a: Seq<u16>, b: Seq<u16>) -> Seq<u16>
    decreases children.len(),
{
    if children.len() == 0 {
        Seq::empty()
    } else {
        let prev = kinds_among_sets(children.drop_last(), a, b);
        let c = children.last();
        if a.contains(c) || b.contains(c) { prev.push(c) } else { prev }
    }
}

/// A step's numbers fit the 32-bit counters the walk keeps.
pub open spec fn step_fits(s: CogStep) -> bool {
    s.nesting <= u32::MAX && s.depth <= u32::MAX && s.lambda <= u32::MAX && s.structural <= u32::MAX
}

/// What the step yields as executable values.
pub open spec fn step_result(s: CogStep, r: (CogCtx, Vec<u16>), st: CogState) -> bool {
    &&& r.0.nesting == s.nesting && r.0.depth == s.depth && r.0.lambda == s.lambda
    &&& st.structural == s.structural && st.boolean_op == s.boolean_op
    &&& r.1@ == s.booleans
}

/// A nesting construct as seen from outside: its children sit one nesting
/// level deeper (depth and lambda nesting unchanged), and it adds one plus the
/// nesting, depth and lambda nesting it stands at to the structural count.
pub open spec fn costs_nesting(ctx: CogCtx, before: int, inner: CogCtx, after: int) -> bool {
    &&& inner.nesting == ctx.nesting + 1
    &&& inner.depth == ctx.depth
    &&& inner.lambda == ctx.lambda
    &&& after == before + ctx.nesting + ctx.depth + ctx.lambda + 1
}

/// The same, for a step in mathematical integers.
pub open spec fn step_costs_nesting(ctx: CogCtx, before: u32, s: CogStep) -> bool {
    &&& s.nesting == ctx.nesting + 1
    &&& s.depth == ctx.depth
    &&& s.lambda == ctx.lambda
    &&& s.structural == before + ctx.nesting + ctx.depth + ctx.lambda + 1
    &&& s.boolean_op is None
}

fn contains_kind(set: &Vec<u16>, k: u16) -> (r: bool)
    ensures
        r == set@.contains(k),
{
    let mut i: usize = 0;
    while i < set.len()
        invariant
            i <= set@.len(),
            forall|j: int| 0 <= j < i ==> set@[j] != k,
        decreases set.len() - i,
    {
        if set[i] == k {
            assert(set@[i as int] == k);
            return true;
        }
        i = i + 1;
    }
    false
}

fn collect_kinds(children: &Vec<u16>, a: u16, b: u16) -> (r: Vec<u16>)
    ensures
        r@ == kinds_among(children@, a, b),
{
    let mut out: Vec<u16> = Vec::new();
    let mut i: usize = 0;
    while i < children.len()
        invariant
            i <= children@.len(),
            out@ == kinds_among(children@.take(i as int), a, b),
        decreases children.len() - i,
    {
        assert(children@.take(i + 1).drop_last() =~= children@.take(i as int));
        let c = children[i];
        if c == a || c == b {
            out.push(c);
        }
        i = i + 1;
    }
    assert(children@.take(children@.len() as int) =~= children@);
    out
}

fn collect_kinds_in(children: &Vec<u16>, a: &Vec<u16>, b: &Vec<u16>) -> (r: Vec<u16>)
    ensures
        r@ == kinds_among_sets(children@, a@, b@),
{
    let mut out: Vec<u16> = Vec::new();
    let mut i: usize = 0;
    while i < children.len()
        invariant
            i <= children@.len(),
            out@ == kinds_among_sets(children@.take(i as int), a@, b@),
        decreases children.len() - i,
    {
        assert(children@.take(i + 1).drop_last() =~= children@.take(i as int));
        let c = children[i];
        if contains_kind(a, c) || contains_kind(b, c) {
            out.push(c);
        }
        i = i + 1;
    }
    assert(children@.take(children@.len() as int) =~= children@);
    out
}

/// Applies the nesting-construct step.
fn nest(ctx: CogCtx, st: &mut CogState) -> (r: CogCtx)
    requires
        step_fits(nesting_step(ctx, old(st).structural)),
    ensures
        r.nesting == ctx.nesting + 1 && r.depth == ctx.depth && r.lambda == ctx.lambda,
        final(st).structural == old(st).structural + ctx.nesting + ctx.depth + ctx.lambda + 1,
        final(st).boolean_op is None,
{
    st.structural = st.structural + ctx.nesting + ctx.depth + ctx.lambda + 1;
    st.boolean_op = None;
    CogCtx { nesting: ctx.nesting + 1, depth: ctx.depth, lambda: ctx.lambda }
}

// ---------------------------------------------------------------------------
// Python
// ---------------------------------------------------------------------------

/// The Python grammar's kind ids the cognitive step reads.
pub struct PythonCogKinds {
    pub function_definition: u16,
    pub lambda: u16,
    pub else_clause: u16,
    pub for_statement: u16,
    pub while_statement: u16,
    pub if_statement: u16,
    pub conditional_expression: u16,
    pub elif_clause: u16,
    pub finally_clause: u16,
    pub except_clause: u16,
    pub expression_statement: u16,
    pub expression_list: u16,
    pub tuple: u16,
    pub not_operator: u16,
    pub boolean_operator: u16,
    pub kw_and: u16,
    pub kw_or: u16,
}

/// The Python step:
/// - `if` / `for` / `while` / conditional expression: a nesting construct;
/// - `elif`: one, and ends the boolean sequence; `else` / `finally`: one;
/// - `except`: nests one deeper and costs one plus the deeper nesting, depth
///   and lambda nesting;
/// - expression statement / list / tuple: ends the boolean sequence;
/// - `not`: starts a sequence of its own kind;
/// - boolean operator: its `and` / `or` children go to the sequence evaluation;
/// - `lambda`: one more lambda level;
/// - a function nested in a function: one more depth level.
pub open spec fn python_cog_step(k: PythonCogKinds, n: CogNode, ctx: CogCtx, st: CogState) -> CogStep {
    let id = n.kind;
    let s = st.structural;
    let same = unchanged(ctx, s, st.boolean_op);
    if id == k.if_statement || id == k.for_statement || id == k.while_statement || id == k.conditional_expression {
        nesting_step(ctx, s)
    } else if id == k.elif_clause {
        CogStep { structural: s + 1, boolean_op: None, ..same }
    } else if id == k.else_clause || id == k.finally_clause {
        CogStep { structural: s + 1, ..same }
    } else if id == k.except_clause {
        CogStep { nesting: ctx.nesting + 1, structural: s + (ctx.nesting + 1) + ctx.depth + ctx.lambda + 1, ..same }
    } else if id == k.expression_statement || id == k.expression_list || id == k.tuple {
        CogStep { boolean_op: None, ..same }
    } else if id == k.not_operator {
        CogStep { boolean_op: Some(id), ..same }
    } else if id == k.boolean_operator {
        CogStep { booleans: kinds_among(n.children@, k.kw_and, k.kw_or), ..same }
    } else if id == k.lambda {
        CogStep { lambda: ctx.lambda + 1, ..same }
    } else if id == k.function_definition && n.ancestors@.contains(k.function_definition) {
        CogStep { depth: ctx.depth + 1, ..same }
    } else {
        same
    }
}

impl PythonCogKinds {
    /// The Python cognitive step for node `n` (see `python_cog_step`): returns
    /// the context for the node's children and the boolean operators to
    /// evaluate, and updates the running state.
    pub fn cog_node(&self, n: &CogNode, ctx: CogCtx, st: &mut CogState) -> (r: (CogCtx, Vec<u16>))
        requires
            step_fits(python_cog_step(*self, *n, ctx, *old(st))),
        ensures
            step_result(python_cog_step(*self, *n, ctx, *old(st)), r, *final(st)),
            n.kind == self.if_statement || n.kind == self.for_statement || n.kind == self.while_statement
                || n.kind == self.conditional_expression ==> costs_nesting(
                ctx,
                old(st).structural as int,
                r.0,
                final(st).structural as int,
            ),
            final(st).structural >= old(st).structural,
    {
        let id = n.kind;
        let none: Vec<u16> = Vec::new();
        if id == self.if_statement || id == self.for_statement || id == self.while_statement
            || id == self.conditional_expression {
            let c = nest(ctx, st);
            (c, none)
        } else if id == self.elif_clause {
            st.structural = st.structural + 1;
            st.boolean_op = None;
            (ctx, none)
        } else if id == self.else_clause || id == self.finally_clause {
            st.structural = st.structural + 1;
            (ctx, none)
        } else if id == self.except_clause {
            let cn = ctx.nesting + 1;
            st.structural = st.structural + cn + ctx.depth + ctx.lambda + 1;
            (CogCtx { nesting: cn, depth: ctx.depth, lambda: ctx.lambda }, none)
        } else if id == self.expression_statement || id == self.expression_list || id == self.tuple {
            st.boolean_op = None;
            (ctx, none)
        } else if id == self.not_operator {
            st.boolean_op = Some(id);
            (ctx, none)
        } else if id == self.boolean_operator {
            let b = collect_kinds(&n.children, self.kw_and, self.kw_or);
            (ctx, b)
        } else if id == self.lambda {
            (CogCtx { nesting: ctx.nesting, depth: ctx.depth, lambda: ctx.lambda + 1 }, none)
        } else if id == self.function_definition && contains_kind(&n.ancestors, self.function_definition) {
            (CogCtx { nesting: ctx.nesting, depth: ctx.depth + 1, lambda: ctx.lambda }, none)
        } else {
            (ctx, none)
        }
    }
}

// ---------------------------------------------------------------------------
// Rust
// ---------------------------------------------------------------------------

/// The Rust grammar's kind ids the cognitive step reads; `cog_nest` holds the
/// nesting constructs other than `if` (`for`, `while`, `loop`, `match`).
pub struct RustCogKinds {
    pub if_expression: u16,
    pub cog_nest: Vec<u16>,
    pub else_clause: u16,
    pub break_expression: u16,
    pub continue_expression: u16,
    pub label: u16,
    pub unary_expression: u16,
    pub binary_expression: u16,
    pub amp_amp: u16,
    pub pipe_pipe: u16,
    pub function_item: u16,
    pub closure_expression: u16,
}

/// The Rust step:
/// - `if` (not an `else if`, whose parent is an `else` clause) and the other
///   nesting constructs: a nesting construct;
/// - `else` (plain or `else if`): one;
/// - `break` / `continue` with a label (its second child): one;
/// - unary expression: starts a sequence of its own kind;
/// - binary expression: its `&&` / `||` children go to the sequence evaluation;
/// - a function resets the nesting, and a function nested in a function adds a
///   depth level;
/// - a closure: one more lambda level.
pub open spec fn rust_cog_step(k: RustCogKinds, n: CogNode, ctx: CogCtx, st: CogState) -> CogStep {
    let id = n.kind;
    let s = st.structural;
    let same = unchanged(ctx, s, st.boolean_op);
    let anc = n.ancestors@;
    let ch = n.children@;
    if id == k.if_expression {
        if anc.len() > 0 && anc[0] == k.else_clause { same } else { nesting_step(ctx, s) }
    } else if k.cog_nest@.contains(id) {
        nesting_step(ctx, s)
    } else if id == k.else_clause {
        CogStep { structural: s + 1, ..same }
    } else if id == k.break_expression || id == k.continue_expression {
        if ch.len() > 1 && ch[1] == k.label { CogStep { structural: s + 1, ..same } } else { same }
    } else if id == k.unary_expression {
        CogStep { boolean_op: Some(id), ..same }
    } else if id == k.binary_expression {
        CogStep { booleans: kinds_among(ch, k.amp_amp, k.pipe_pipe), ..same }
    } else if id == k.function_item {
        CogStep { nesting: 0, depth: if anc.contains(k.function_item) { ctx.depth + 1 } else { ctx.depth as int }, ..same }
    } else if id == k.closure_expression {
        CogStep { lambda: ctx.lambda + 1, ..same }
    } else {
        same
    }
}

impl RustCogKinds {
    /// The Rust cognitive step for node `n` (see `rust_cog_step`).
    pub fn cog_node(&self, n: &CogNode, ctx: CogCtx, st: &mut CogState) -> (r: (CogCtx, Vec<u16>))
        requires
            step_fits(rust_cog_step(*self, *n, ctx, *old(st))),
        ensures
            step_result(rust_cog_step(*self, *n, ctx, *old(st)), r, *final(st)),
            n.kind != self.if_expression && self.cog_nest@.contains(n.kind) ==> costs_nesting(
                ctx,
                old(st).structural as int,
                r.0,
                final(st).structural as int,
            ),
            n.kind == self.if_expression && !(n.ancestors@.len() > 0 && n.ancestors@[0] == self.else_clause)
                ==> costs_nesting(ctx, old(st).structural as int, r.0, final(st).structural as int),
            final(st).structural >= old(st).structural,
    {
        let id = n.kind;
        let none: Vec<u16> = Vec::new();
        if id == self.if_expression {
            if n.ancestors.len() > 0 && n.ancestors[0] == self.else_clause {
                (ctx, none)
            } else {
                let c = nest(ctx, st);
                (c, none)
            }
        } else if contains_kind(&self.cog_nest, id) {
            let c = nest(ctx, st);
            (c, none)
        } else if id == self.else_clause {
            st.structural = st.structural + 1;
            (ctx, none)
        } else if id == self.break_expression || id == self.continue_expression {
            if n.children.len() > 1 && n.children[1] == self.label {
                st.structural = st.structural + 1;
            }
            (ctx, none)
        } else if id == self.unary_expression {
            st.boolean_op = Some(id);
            (ctx, none)
        } else if id == self.binary_expression {
            let b = collect_kinds(&n.children, self.amp_amp, self.pipe_pipe);
            (ctx, b)
        } else if id == self.function_item {
            let cd = if contains_kind(&n.ancestors, self.function_item) { ctx.depth + 1 } else { ctx.depth };
            (CogCtx { nesting: 0, depth: cd, lambda: ctx.lambda }, none)
        } else if id == self.closure_expression {
            (CogCtx { nesting: ctx.nesting, depth: ctx.depth, lambda: ctx.lambda + 1 }, none)
        } else {
            (ctx, none)
        }
    }
}

// ---------------------------------------------------------------------------
// ECMAScript
// ---------------------------------------------------------------------------

/// The ECMAScript (JavaScript / TypeScript) grammar's kind ids the cognitive
/// step reads. A role may have several kinds across the grammars; an `else
/// if` is an `if` whose parent is an `else` clause or, in grammars without
/// one, another `if`.
pub struct EcmaCogKinds {
    pub if_statement: Vec<u16>,
    pub else_clause: Vec<u16>,
    pub else_if_via_else_clause: bool,
    pub cog_nest: Vec<u16>,
    pub kw_else: Vec<u16>,
    pub expression_statement: Vec<u16>,
    pub unary_expression: Vec<u16>,
    pub binary_expression: Vec<u16>,
    pub amp_amp: Vec<u16>,
    pub pipe_pipe: Vec<u16>,
    pub function_declaration: u16,
    pub arrow_function: u16,
}

/// An `if` node that continues an `else` (see `EcmaCogKinds`).
pub open spec fn ecma_is_else_if(k: EcmaCogKinds, n: CogNode) -> bool {
    let want = if k.else_if_via_else_clause { k.else_clause@ } else { k.if_statement@ };
    k.if_statement@.contains(n.kind) && n.ancestors@.len() > 0 && want.contains(n.ancestors@[0])
}

/// The ECMAScript step:
/// - `if` (not an `else if`) and the other nesting constructs: a nesting
///   construct;
/// - `else`: one;
/// - expression statement: ends the boolean sequence;
/// - unary expression: starts a sequence of its own kind;
/// - binary expression: its `&&` / `||` children go to the sequence evaluation;
/// - a function declaration resets nesting and lambda nesting, and one nested
///   in a function declaration adds a depth level;
/// - an arrow function: one more lambda level.
pub open spec fn ecma_cog_step(k: EcmaCogKinds, n: CogNode, ctx: CogCtx, st: CogState) -> CogStep {
    let id = n.kind;
    let s = st.structural;
    let same = unchanged(ctx, s, st.boolean_op);
    if k.if_statement@.contains(id) {
        if ecma_is_else_if(k, n) { same } else { nesting_step(ctx, s) }
    } else if k.cog_nest@.contains(id) {
        nesting_step(ctx, s)
    } else if k.kw_else@.contains(id) {
        CogStep { structural: s + 1, ..same }
    } else if k.expression_statement@.contains(id) {
        CogStep { boolean_op: None, ..same }
    } else if k.unary_expression@.contains(id) {
        CogStep { boolean_op: Some(id), ..same }
    } else if k.binary_expression@.contains(id) {
        CogStep { booleans: kinds_among_sets(n.children@, k.amp_amp@, k.pipe_pipe@), ..same }
    } else if id == k.function_declaration {
        CogStep {
            nesting: 0,
            lambda: 0,
            depth: if n.ancestors@.contains(k.function_declaration) { ctx.depth + 1 } else { ctx.depth as int },
            ..same
        }
    } else if id == k.arrow_function {
        CogStep { lambda: ctx.lambda + 1, ..same }
    } else {
        same
    }
}

impl EcmaCogKinds {
    /// The ECMAScript cognitive step for node `n` (see `ecma_cog_step`).
    pub fn cog_node(&self, n: &CogNode, ctx: CogCtx, st: &mut CogState) -> (r: (CogCtx, Vec<u16>))
        requires
            step_fits(ecma_cog_step(*self, *n, ctx, *old(st))),
        ensures
            step_result(ecma_cog_step(*self, *n, ctx, *old(st)), r, *final(st)),
            !self.if_statement@.contains(n.kind) && self.cog_nest@.contains(n.kind) ==> costs_nesting(
                ctx,
                old(st).structural as int,
                r.0,
                final(st).structural as int,
            ),
            final(st).structural >= old(st).structural,
    {
        let id = n.kind;
        let none: Vec<u16> = Vec::new();
        if contains_kind(&self.if_statement, id) {
            let want = if self.else_if_via_else_clause { &self.else_clause } else { &self.if_statement };
            if n.ancestors.len() > 0 && contains_kind(want, n.ancestors[0]) {
                (ctx, none)
            } else {
                let c = nest(ctx, st);
                (c, none)
            }
        } else if contains_kind(&self.cog_nest, id) {
            let c = nest(ctx, st);
            (c, none)
        } else if contains_kind(&self.kw_else, id) {
            st.structural = st.structural + 1;
            (ctx, none)
        } else if contains_kind(&self.expression_statement, id) {
            st.boolean_op = None;
            (ctx, none)
        } else if contains_kind(&self.unary_expression, id) {
            st.boolean_op = Some(id);
            (ctx, none)
        } else if contains_kind(&self.binary_expression, id) {
            let b = collect_kinds_in(&n.children, &self.amp_amp, &self.pipe_pipe);
            (ctx, b)
        } else if id == self.function_declaration {
            let cd = if contains_kind(&n.ancestors, self.function_declaration) { ctx.depth + 1 } else { ctx.depth };
            (CogCtx { nesting: 0, depth: cd, lambda: 0 }, none)
        } else if id == self.arrow_function {
            (CogCtx { nesting: ctx.nesting, depth: ctx.depth, lambda: ctx.lambda + 1 }, none)
        } else {
            (ctx, none)
        }
    }
}

/// Python's `if`, `for` and `while` statements and conditional expressions
/// are nesting constructs: each costs one plus the nesting, depth and lambda
/// nesting it stands at, and nests its children one level deeper.
pub proof fn lemma_python_nesting_constructs(k: PythonCogKinds, n: CogNode, ctx: CogCtx, st: CogState)
    requires
        n.kind == k.if_statement || n.kind == k.for_statement || n.kind == k.while_statement
            || n.kind == k.conditional_expression,
    ensures
        step_costs_nesting(ctx, st.structural, python_cog_step(k, n, ctx, st)),
{
}

/// In Rust the loops and `match` (the kinds of `cog_nest`) and an `if` that
/// does not continue an `else` are nesting constructs.
pub proof fn lemma_rust_nesting_constructs(k: RustCogKinds, n: CogNode, ctx: CogCtx, st: CogState)
    requires
        (n.kind != k.if_expression && k.cog_nest@.contains(n.kind)) || (n.kind == k.if_expression && !(
        n.ancestors@.len() > 0 && n.ancestors@[0] == k.else_clause)),
    ensures
        step_costs_nesting(ctx, st.structural, rust_cog_step(k, n, ctx, st)),
{
}

/// In ECMAScript the loops, `switch` and the like (the kinds of `cog_nest`)
/// and an `if` that does not continue an `else` are nesting constructs.
pub proof fn lemma_ecma_nesting_constructs(k: EcmaCogKinds, n: CogNode, ctx: CogCtx, st: CogState)
    requires
        (!k.if_statement@.contains(n.kind) && k.cog_nest@.contains(n.kind)) || (k.if_statement@.contains(n.kind)
            && !(n.ancestors@.len() > 0 && (if k.else_if_via_else_clause {
            k.else_clause@
        } else {
            k.if_statement@
        }).contains(n.ancestors@[0]))),
    ensures
        step_costs_nesting(ctx, st.structural, ecma_cog_step(k, n, ctx, st)),
{
}

/// No step lowers the structural count, and none raises it by more than two
/// plus the nesting, depth and lambda nesting it stands at.
pub proof fn lemma_structural_grows_boundedly(
    pk: PythonCogKinds,
    rk: RustCogKinds,
    ek: EcmaCogKinds,
    n: CogNode,
    ctx: CogCtx,
    st: CogState,
)
    ensures
        st.structural <= python_cog_step(pk, n, ctx, st).structural <= st.structural + ctx.nesting + ctx.depth
            + ctx.lambda + 2,
        st.structural <= rust_cog_step(rk, n, ctx, st).structural <= st.structural + ctx.nesting + ctx.depth
            + ctx.lambda + 1,
        st.structural <= ecma_cog_step(ek, n, ctx, st).structural <= st.structural + ctx.nesting + ctx.depth
            + ctx.lambda + 1,
{
}

/// The children of kind `a` or `b`, in order, are those the filter keeps.
proof fn lemma_kinds_among_filter(children: Seq<u16>, a: u16, b: u16)
    ensures
        kinds_among(children, a, b) == children.filter(|c: u16| c == a || c == b),
    decreases children.len(),
{
    if children.len() > 0 {
        lemma_kinds_among_filter(children.drop_last(), a, b);
        children.drop_last().lemma_filter_push(children.last(), |c: u16| c == a || c == b);
        assert(children.drop_last().push(children.last()) =~= children);
    }
}

/// The Python kind ids the step tells apart are pairwise different.
pub open spec fn python_kinds_distinct(k: PythonCogKinds) -> bool {
    seq![
        k.function_definition,
        k.lambda,
        k.else_clause,
        k.for_statement,
        k.while_statement,
        k.if_statement,
        k.conditional_expression,
        k.elif_clause,
        k.finally_clause,
        k.except_clause,
        k.expression_statement,
        k.expression_list,
        k.tuple,
        k.not_operator,
        k.boolean_operator,
    ].no_duplicates()
}

/// The step keeps the nesting context as it is.
pub open spec fn keeps_ctx(ctx: CogCtx, s: CogStep) -> bool {
    s.nesting == ctx.nesting && s.depth == ctx.depth && s.lambda == ctx.lambda
}

/// What each kind of Python node does, for a grammar whose kinds differ:
/// `elif` costs one and ends a boolean sequence; `else` and `finally` cost
/// one; `except` nests one deeper and costs the deeper nesting plus depth,
/// lambda nesting and one; an expression statement, list or tuple ends a
/// boolean sequence; `not` starts its own; a boolean operator hands its `and`
/// / `or` children, in order, to the sequence evaluation; a `lambda` is one
/// lambda level deeper; a function inside a function is one depth level
/// deeper; any other node changes nothing. Only a boolean operator hands on
/// operators.
pub proof fn lemma_python_step_kinds(k: PythonCogKinds, n: CogNode, ctx: CogCtx, st: CogState)
    requires
        python_kinds_distinct(k),
    ensures
        ({
            let s = python_cog_step(k, n, ctx, st);
            let id = n.kind;
            &&& id == k.elif_clause ==> keeps_ctx(ctx, s) && s.structural == st.structural + 1 && s.boolean_op is None
            &&& id == k.else_clause || id == k.finally_clause ==> keeps_ctx(ctx, s) && s.structural == st.structural
                + 1 && s.boolean_op == st.boolean_op
            &&& id == k.except_clause ==> s.nesting == ctx.nesting + 1 && s.depth == ctx.depth && s.lambda == ctx.lambda
                && s.structural == st.structural + ctx.nesting + ctx.depth + ctx.lambda + 2 && s.boolean_op
                == st.boolean_op
            &&& id == k.expression_statement || id == k.expression_list || id == k.tuple ==> keeps_ctx(ctx, s)
                && s.structural == st.structural && s.boolean_op is None
            &&& id == k.not_operator ==> keeps_ctx(ctx, s) && s.structural == st.structural && s.boolean_op == Some(id)
            &&& id == k.boolean_operator ==> keeps_ctx(ctx, s) && s.structural == st.structural && s.boolean_op
                == st.boolean_op && s.booleans == n.children@.filter(|c: u16| c == k.kw_and || c == k.kw_or)
            &&& id != k.boolean_operator ==> s.booleans.len() == 0
            &&& id == k.lambda ==> s.lambda == ctx.lambda + 1 && s.nesting == ctx.nesting && s.depth == ctx.depth
                && s.structural == st.structural && s.boolean_op == st.boolean_op
            &&& id == k.function_definition ==> s.nesting == ctx.nesting && s.lambda == ctx.lambda && s.depth
                == ctx.depth + (if n.ancestors@.contains(k.function_definition) { 1int } else { 0int })
                && s.structural == st.structural && s.boolean_op == st.boolean_op
            &&& !seq![
                k.function_definition,
                k.lambda,
                k.else_clause,
                k.for_statement,
                k.while_statement,
                k.if_statement,
                k.conditional_expression,
                k.elif_clause,
                k.finally_clause,
                k.except_clause,
                k.expression_statement,
                k.expression_list,
                k.tuple,
                k.not_operator,
                k.boolean_operator,
            ].contains(id) ==> keeps_ctx(ctx, s) && s.structural == st.structural && s.boolean_op == st.boolean_op
        }),
{
    let ks = seq![
        k.function_definition,
        k.lambda,
        k.else_clause,
        k.for_statement,
        k.while_statement,
        k.if_statement,
        k.conditional_expression,
        k.elif_clause,
        k.finally_clause,
        k.except_clause,
        k.expression_statement,
        k.expression_list,
        k.tuple,
        k.not_operator,
        k.boolean_operator,
    ];
    assert(ks[0] == k.function_definition && ks[1] == k.lambda && ks[2] == k.else_clause && ks[3] == k.for_statement);
    assert(ks[4] == k.while_statement && ks[5] == k.if_statement && ks[6] == k.conditional_expression);
    assert(ks[7] == k.elif_clause && ks[8] == k.finally_clause && ks[9] == k.except_clause);
    assert(ks[10] == k.expression_statement && ks[11] == k.expression_list && ks[12] == k.tuple);
    assert(ks[13] == k.not_operator && ks[14] == k.boolean_operator);
    lemma_kinds_among_filter(n.children@, k.kw_and, k.kw_or);
    if !ks.contains(n.kind) {
        assert(n.kind != ks[0] && n.kind != ks[1] && n.kind != ks[2] && n.kind != ks[3] && n.kind != ks[4]);
        assert(n.kind != ks[5] && n.kind != ks[6] && n.kind != ks[7] && n.kind != ks[8] && n.kind != ks[9]);
        assert(n.kind != ks[10] && n.kind != ks[11] && n.kind != ks[12] && n.kind != ks[13] && n.kind != ks[14]);
    }
}

/// The Rust kind ids the step tells apart are pairwise different, and none of
/// them is one of the other nesting constructs.
pub open spec fn rust_kinds_distinct(k: RustCogKinds) -> bool {
    let ks = seq![
        k.if_expression,
        k.else_clause,
        k.break_expression,
        k.continue_expression,
        k.unary_expression,
        k.binary_expression,
        k.function_item,
        k.closure_expression,
    ];
    ks.no_duplicates() && forall|i: int| 0 <= i < ks.len() ==> !k.cog_nest@.contains(#[trigger] ks[i])
}

/// What each kind of Rust node does, for a grammar whose kinds differ: an
/// `else` costs one; a `break` or `continue` costs one when it carries a label
/// (its second child) and nothing otherwise; an `if` that continues an `else`
/// costs nothing of its own; a unary expression starts a boolean sequence of
/// its own kind; a binary expression hands its `&&` / `||` children, in order,
/// to the sequence evaluation; a function restarts the nesting at zero and is
/// one depth level deeper when it sits in a function; a closure is one lambda
/// level deeper; any other node changes nothing. Only a binary expression
/// hands on operators.
pub proof fn lemma_rust_step_kinds(k: RustCogKinds, n: CogNode, ctx: CogCtx, st: CogState)
    requires
        rust_kinds_distinct(k),
    ensures
        ({
            let s = rust_cog_step(k, n, ctx, st);
            let id = n.kind;
            let anc = n.ancestors@;
            let ch = n.children@;
            &&& id == k.else_clause ==> keeps_ctx(ctx, s) && s.structural == st.structural + 1 && s.boolean_op
                == st.boolean_op
            &&& id == k.break_expression || id == k.continue_expression ==> keeps_ctx(ctx, s) && s.boolean_op
                == st.boolean_op && s.structural == st.structural + (if ch.len() > 1 && ch[1] == k.label {
                1int
            } else {
                0int
            })
            &&& id == k.if_expression && anc.len() > 0 && anc[0] == k.else_clause ==> keeps_ctx(ctx, s)
                && s.structural == st.structural && s.boolean_op == st.boolean_op
            &&& id == k.unary_expression ==> keeps_ctx(ctx, s) && s.structural == st.structural && s.boolean_op
                == Some(id)
            &&& id == k.binary_expression ==> keeps_ctx(ctx, s) && s.structural == st.structural && s.boolean_op
                == st.boolean_op && s.booleans == ch.filter(|c: u16| c == k.amp_amp || c == k.pipe_pipe)
            &&& id != k.binary_expression ==> s.booleans.len() == 0
            &&& id == k.function_item ==> s.nesting == 0 && s.lambda == ctx.lambda && s.depth == ctx.depth + (if anc.contains(
                k.function_item,
            ) {
                1int
            } else {
                0int
            }) && s.structural == st.structural && s.boolean_op == st.boolean_op
            &&& id == k.closure_expression ==> s.lambda == ctx.lambda + 1 && s.nesting == ctx.nesting && s.depth
                == ctx.depth && s.structural == st.structural && s.boolean_op == st.boolean_op
            &&& !k.cog_nest@.contains(id) && !seq![
                k.if_expression,
                k.else_clause,
                k.break_expression,
                k.continue_expression,
                k.unary_expression,
                k.binary_expression,
                k.function_item,
                k.closure_expression,
            ].contains(id) ==> keeps_ctx(ctx, s) && s.structural == st.structural && s.boolean_op == st.boolean_op
        }),
{
    let ks = seq![
        k.if_expression,
        k.else_clause,
        k.break_expression,
        k.continue_expression,
        k.unary_expression,
        k.binary_expression,
        k.function_item,
        k.closure_expression,
    ];
    assert(ks[0] == k.if_expression && ks[1] == k.else_clause && ks[2] == k.break_expression);
    assert(ks[3] == k.continue_expression && ks[4] == k.unary_expression && ks[5] == k.binary_expression);
    assert(ks[6] == k.function_item && ks[7] == k.closure_expression);
    lemma_kinds_among_filter(n.children@, k.amp_amp, k.pipe_pipe);
    if !ks.contains(n.kind) {
        assert(n.kind != ks[0] && n.kind != ks[1] && n.kind != ks[2] && n.kind != ks[3]);
        assert(n.kind != ks[4] && n.kind != ks[5] && n.kind != ks[6] && n.kind != ks[7]);
    }
}

/// What some kinds of ECMAScript node do, for a grammar whose roles do not
/// share kinds: an `else` keyword costs one; a function declaration restarts
/// nesting and lambda nesting at zero and is one depth level deeper inside a
/// function declaration; an arrow function is one lambda level deeper; a
/// binary expression hands its `&&` / `||` children, in order, to the
/// sequence evaluation; an `if` that continues an `else` costs nothing of its
/// own; a node of no role changes nothing.
pub proof fn lemma_ecma_step_kinds(k: EcmaCogKinds, n: CogNode, ctx: CogCtx, st: CogState)
    ensures
        ({
            let s = ecma_cog_step(k, n, ctx, st);
            let id = n.kind;
            let anc = n.ancestors@;
            let roles = k.if_statement@ + k.cog_nest@ + k.kw_else@ + k.expression_statement@ + k.unary_expression@
                + k.binary_expression@;
            &&& !k.if_statement@.contains(id) && !k.cog_nest@.contains(id) && k.kw_else@.contains(id) ==> keeps_ctx(
                ctx,
                s,
            ) && s.structural == st.structural + 1 && s.boolean_op == st.boolean_op
            &&& !roles.contains(id) && id == k.function_declaration ==> s.nesting == 0 && s.lambda == 0 && s.depth
                == ctx.depth + (if anc.contains(k.function_declaration) { 1int } else { 0int }) && s.structural
                == st.structural && s.boolean_op == st.boolean_op
            &&& !roles.contains(id) && id != k.function_declaration && id == k.arrow_function ==> s.lambda == ctx.lambda
                + 1 && s.nesting == ctx.nesting && s.depth == ctx.depth && s.structural == st.structural
            &&& k.if_statement@.contains(id) && anc.len() > 0 && (if k.else_if_via_else_clause {
                k.else_clause@
            } else {
                k.if_statement@
            }).contains(anc[0]) ==> keeps_ctx(ctx, s) && s.structural == st.structural && s.boolean_op
                == st.boolean_op
            &&& !roles.contains(id) && id != k.function_declaration && id != k.arrow_function ==> keeps_ctx(ctx, s)
                && s.structural == st.structural && s.boolean_op == st.boolean_op && s.booleans.len() == 0
        }),
{
    let id = n.kind;
    let roles = k.if_statement@ + k.cog_nest@ + k.kw_else@ + k.expression_statement@ + k.unary_expression@
        + k.binary_expression@;
    if !roles.contains(id) {
        assert forall|x: Seq<u16>| #![auto] x.contains(id) && (x == k.if_statement@ || x == k.cog_nest@ || x == k.kw_else@
            || x == k.expression_statement@ || x == k.unary_expression@ || x == k.binary_expression@) implies false by {
            let j = choose|j: int| 0 <= j < x.len() && x[j] == id;
            let a = k.if_statement@;
            let b = a + k.cog_nest@;
            let c = b + k.kw_else@;
            let d = c + k.expression_statement@;
            let e = d + k.unary_expression@;
            if x == a {
                assert(roles[j] == id);
            } else if x == k.cog_nest@ {
                assert(roles[a.len() + j] == id);
            } else if x == k.kw_else@ {
                assert(roles[b.len() + j] == id);
            } else if x == k.expression_statement@ {
                assert(roles[c.len() + j] == id);
            } else if x == k.unary_expression@ {
                assert(roles[d.len() + j] == id);
            } else {
                assert(roles[e.len() + j] == id);
            }
        }
        assert(!k.if_statement@.contains(id));
        assert(!k.cog_nest@.contains(id));
        assert(!k.kw_else@.contains(id));
        assert(!k.expression_statement@.contains(id));
        assert(!k.unary_expression@.contains(id));
        assert(!k.binary_expression@.contains(id));
    }
}

} // verus!
