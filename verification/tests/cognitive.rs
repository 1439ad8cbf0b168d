use code_ranker::cognitive::{CogCtx, CogNode, CogState, EcmaCogKinds, PythonCogKinds, RustCogKinds};

fn ctx(nesting: u32, depth: u32, lambda: u32) -> CogCtx {
    CogCtx { nesting, depth, lambda }
}

fn node(kind: u16, ancestors: &[u16], children: &[u16]) -> CogNode {
    CogNode { kind, ancestors: ancestors.to_vec(), children: children.to_vec() }
}

fn python() -> PythonCogKinds {
    PythonCogKinds {
        function_definition: 1,
        lambda: 2,
        else_clause: 3,
        for_statement: 4,
        while_statement: 5,
        if_statement: 6,
        conditional_expression: 7,
        elif_clause: 8,
        finally_clause: 9,
        except_clause: 10,
        expression_statement: 11,
        expression_list: 12,
        tuple: 13,
        not_operator: 14,
        boolean_operator: 15,
        kw_and: 16,
        kw_or: 17,
    }
}

#[test]
fn python_if_costs_its_nesting() {
    let mut st = CogState { structural: 3, boolean_op: Some(16) };
    let (c, b) = python().cog_node(&node(6, &[], &[]), ctx(2, 1, 1), &mut st);
    assert_eq!(c, ctx(3, 1, 1));
    assert_eq!(st.structural, 3 + 2 + 1 + 1 + 1);
    assert_eq!(st.boolean_op, None);
    assert!(b.is_empty());
}

#[test]
fn python_except_costs_the_deeper_nesting() {
    let mut st = CogState { structural: 0, boolean_op: None };
    let (c, _) = python().cog_node(&node(10, &[], &[]), ctx(1, 0, 0), &mut st);
    assert_eq!(c.nesting, 2);
    assert_eq!(st.structural, 3);
}

#[test]
fn python_elif_else_and_booleans() {
    let k = python();
    let mut st = CogState { structural: 0, boolean_op: Some(17) };
    k.cog_node(&node(8, &[], &[]), ctx(4, 0, 0), &mut st);
    assert_eq!((st.structural, st.boolean_op), (1, None));
    st.boolean_op = Some(16);
    k.cog_node(&node(9, &[], &[]), ctx(4, 0, 0), &mut st);
    assert_eq!((st.structural, st.boolean_op), (2, Some(16)));
    let (_, b) = k.cog_node(&node(15, &[], &[20, 16, 21, 17, 16]), ctx(0, 0, 0), &mut st);
    assert_eq!(b, vec![16, 17, 16]);
    k.cog_node(&node(14, &[], &[]), ctx(0, 0, 0), &mut st);
    assert_eq!(st.boolean_op, Some(14));
}

#[test]
fn python_nested_functions_and_lambdas() {
    let k = python();
    let mut st = CogState { structural: 5, boolean_op: None };
    assert_eq!(k.cog_node(&node(1, &[40, 1, 41], &[]), ctx(1, 0, 0), &mut st).0, ctx(1, 1, 0));
    assert_eq!(k.cog_node(&node(1, &[40, 41], &[]), ctx(1, 0, 0), &mut st).0, ctx(1, 0, 0));
    assert_eq!(k.cog_node(&node(2, &[], &[]), ctx(1, 0, 0), &mut st).0, ctx(1, 0, 1));
    assert_eq!(st.structural, 5);
}

fn rust() -> RustCogKinds {
    RustCogKinds {
        if_expression: 1,
        cog_nest: vec![2, 3, 4],
        else_clause: 5,
        break_expression: 6,
        continue_expression: 7,
        label: 8,
        unary_expression: 9,
        binary_expression: 10,
        amp_amp: 11,
        pipe_pipe: 12,
        function_item: 13,
        closure_expression: 14,
    }
}

#[test]
fn rust_else_if_is_not_a_new_nesting() {
    let k = rust();
    let mut st = CogState { structural: 0, boolean_op: Some(11) };
    let (c, _) = k.cog_node(&node(1, &[5], &[]), ctx(1, 0, 0), &mut st);
    assert_eq!((c, st.structural, st.boolean_op), (ctx(1, 0, 0), 0, Some(11)));
    let (c, _) = k.cog_node(&node(1, &[20], &[]), ctx(1, 0, 0), &mut st);
    assert_eq!((c, st.structural, st.boolean_op), (ctx(2, 0, 0), 2, None));
    let (c, _) = k.cog_node(&node(3, &[], &[]), ctx(0, 1, 2), &mut st);
    assert_eq!((c, st.structural), (ctx(1, 1, 2), 2 + 4));
}

#[test]
fn rust_labels_functions_and_closures() {
    let k = rust();
    let mut st = CogState { structural: 0, boolean_op: None };
    k.cog_node(&node(6, &[], &[30, 8]), ctx(0, 0, 0), &mut st);
    assert_eq!(st.structural, 1);
    k.cog_node(&node(7, &[], &[30]), ctx(0, 0, 0), &mut st);
    assert_eq!(st.structural, 1);
    assert_eq!(k.cog_node(&node(13, &[20, 13], &[]), ctx(3, 1, 1), &mut st).0, ctx(0, 2, 1));
    assert_eq!(k.cog_node(&node(13, &[20], &[]), ctx(3, 1, 1), &mut st).0, ctx(0, 1, 1));
    assert_eq!(k.cog_node(&node(14, &[], &[]), ctx(3, 1, 1), &mut st).0, ctx(3, 1, 2));
    let (_, b) = k.cog_node(&node(10, &[], &[40, 12, 41]), ctx(0, 0, 0), &mut st);
    assert_eq!(b, vec![12]);
}

fn ecma(via_else_clause: bool) -> EcmaCogKinds {
    EcmaCogKinds {
        if_statement: vec![1],
        else_clause: vec![2],
        else_if_via_else_clause: via_else_clause,
        cog_nest: vec![3],
        kw_else: vec![4],
        expression_statement: vec![5],
        unary_expression: vec![6],
        binary_expression: vec![7],
        amp_amp: vec![8],
        pipe_pipe: vec![9, 19],
        function_declaration: 10,
        arrow_function: 11,
    }
}

#[test]
fn ecma_else_if_depends_on_the_grammar() {
    let mut st = CogState { structural: 0, boolean_op: None };
    let (c, _) = ecma(true).cog_node(&node(1, &[2], &[]), ctx(1, 0, 0), &mut st);
    assert_eq!((c, st.structural), (ctx(1, 0, 0), 0));
    let (c, _) = ecma(false).cog_node(&node(1, &[2], &[]), ctx(1, 0, 0), &mut st);
    assert_eq!((c, st.structural), (ctx(2, 0, 0), 2));
    let (c, _) = ecma(false).cog_node(&node(1, &[1], &[]), ctx(1, 0, 0), &mut st);
    assert_eq!((c, st.structural), (ctx(1, 0, 0), 2));
}

#[test]
fn ecma_functions_reset_nesting_and_lambdas() {
    let k = ecma(true);
    let mut st = CogState { structural: 0, boolean_op: Some(8) };
    assert_eq!(k.cog_node(&node(10, &[30, 10], &[]), ctx(2, 1, 3), &mut st).0, ctx(0, 2, 0));
    assert_eq!(k.cog_node(&node(11, &[], &[]), ctx(2, 1, 3), &mut st).0, ctx(2, 1, 4));
    let (_, b) = k.cog_node(&node(7, &[], &[8, 40, 19, 9]), ctx(0, 0, 0), &mut st);
    assert_eq!(b, vec![8, 19, 9]);
    k.cog_node(&node(4, &[], &[]), ctx(0, 0, 0), &mut st);
    k.cog_node(&node(5, &[], &[]), ctx(0, 0, 0), &mut st);
    assert_eq!((st.structural, st.boolean_op), (1, None));
}
