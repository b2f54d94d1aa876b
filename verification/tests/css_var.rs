use float_pigment::css::var::{substitute_nodes, substitute_variable, CssNode, CustomPropertyContext};

fn context(vars: &[(&str, &str)]) -> CustomPropertyContext {
    let mut context = CustomPropertyContext::new();
    for (name, value) in vars {
        context.set_custom_property(name, Some(value.to_string()));
    }
    context
}

#[test]
fn illegal_custom_property_name() {
    let mut context = context(&[("--a", "10px")]);
    let ret = substitute_variable("var(a)", &mut context);
    assert!(ret.is_none());
}

#[test]
fn defined_variable() {
    let mut context = context(&[("--a", "10px")]);
    let ret = substitute_variable("var(--a)", &mut context);
    assert!(ret.is_some());
    if let Some(ret) = ret {
        assert_eq!("10px", ret);
    }
}

#[test]
fn defined_variable_2() {
    let mut context = context(&[("--a", "10px")]);
    let ret = substitute_variable("var(--a, 20px)", &mut context);
    assert!(ret.is_some());
    if let Some(ret) = ret {
        assert_eq!("10px", ret);
    }
}

#[test]
fn undefined_variable() {
    let mut context = context(&[]);
    let ret = substitute_variable("var(--a)", &mut context);
    assert!(ret.is_none());
}

#[test]
fn undefined_variable_fallback_value() {
    let mut context = context(&[]);
    let ret = substitute_variable("var(--a, 10px)", &mut context);
    assert!(ret.is_some());
    if let Some(ret) = ret {
        assert_eq!("10px", ret);
    }
}

#[test]
fn undefined_variable_fallback_value_2() {
    let mut context = context(&[]);
    let ret = substitute_variable("var(--a, var(--a, 10px))", &mut context);
    assert!(ret.is_some());
    if let Some(ret) = ret {
        assert_eq!("10px", ret);
    }
}

#[test]
fn undefined_variable_fallback_value_3() {
    let mut context = context(&[("--b", "10px")]);
    let ret = substitute_variable("var(--a, var(--b))", &mut context);
    assert!(ret.is_some());
    if let Some(ret) = ret {
        assert_eq!("10px", ret);
    }
}

#[test]
fn self_cycle() {
    let mut context = context(&[("--a", "var(--a)")]);
    let ret = substitute_variable("var(--a)", &mut context);
    assert!(ret.is_none());
}

#[test]
fn self_cycle_2() {
    let mut context = context(&[("--a", "var(--a, 10px)")]);
    let ret = substitute_variable("var(--a, 20px)", &mut context);
    assert!(ret.is_some());
    if let Some(ret) = ret {
        assert_eq!("20px", ret);
    }
}

#[test]
fn self_cycle_3() {
    let mut context = context(&[("--a", "var(--a, 10px)")]);
    let ret = substitute_variable("var(--a, var(--a, 30px))", &mut context);
    assert!(ret.is_some());
    if let Some(ret) = ret {
        assert_eq!("30px", ret);
    }
}

#[test]
fn cycle() {
    let mut context = context(&[("--a", "var(--b, 10px)"), ("--b", "var(--c, 20px)"), ("--c", "var(--a, 30px)")]);
    let ret = substitute_variable("var(--a, 40px)", &mut context);
    assert!(ret.is_some());
    if let Some(ret) = ret {
        assert_eq!("40px", ret);
    }
}

#[test]
fn cycle_2() {
    let mut context = context(&[("--a", "var(--b, 10px)"), ("--b", "var(--c, 20px)"), ("--c", "var(--b, 30px)")]);
    let ret = substitute_variable("var(--a, 40px)", &mut context);
    assert!(ret.is_some());
    if let Some(ret) = ret {
        assert_eq!("10px", ret);
    }
}

#[test]
fn cycle_3() {
    let mut context = context(&[("--a", "var(--b, 10px)"), ("--b", "var(--c, 20px)"), ("--c", "var(--a, 30px)")]);
    let ret = substitute_variable("var(--a, var(--a, var(--b)))", &mut context);
    assert!(ret.is_none());
}

#[test]
fn cycle_4() {
    let mut context = context(&[("--a", "var(--b, 10px)"), ("--b", "var(--c, 20px)"), ("--c", "var(--a, 30px)")]);
    let ret = substitute_variable("var(--a, var(--a, var(--b, 40px)))", &mut context);
    assert!(ret.is_some());
    if let Some(ret) = ret {
        assert_eq!("40px", ret);
    }
}

#[test]
fn cycle_5() {
    let mut context = context(&[("--a", "var(--b)"), ("--b", "var(--c)"), ("--c", "var(--a, 10px)")]);
    let ret = substitute_variable("var(--c, 20px)", &mut context);
    assert!(ret.is_some());
    if let Some(ret) = ret {
        assert_eq!("20px", ret);
    }
}

#[test]
fn custom_property_cycle() {
    let mut context = context(&[("--a", "var(--b)"), ("--b", "var(--c)"), ("--c", "var(--a, 10px)")]);
    let ret = substitute_variable("var(--b)", &mut context);
    assert!(ret.is_none());
}

#[test]
fn multiple_var() {
    let mut context = context(&[("--a", "50px")]);
    let ret = substitute_variable("var(--a,10px) var(--b,20px) var(--a) var(--b,var(--a))", &mut context);
    assert!(ret.is_some());
    if let Some(ret) = ret {
        assert_eq!("50px 20px 50px 50px", ret);
    }
}

#[test]
fn calc() {
    let mut context = context(&[("--a", "50px")]);
    let ret = substitute_variable("calc(10px + var(--a))", &mut context);
    assert!(ret.is_some());
    if let Some(ret) = ret {
        assert_eq!("calc(10px + 50px)", ret);
    }
}

#[test]
fn calc_2() {
    let mut context = context(&[("--a", "50px + 20%")]);
    let ret = substitute_variable("calc(var(--a))", &mut context);
    assert!(ret.is_some());
    if let Some(ret) = ret {
        assert_eq!("calc(50px + 20%)", ret);
    }
}

#[test]
fn calc_3() {
    let mut context = context(&[("--a", "50px + 20%")]);
    let ret = substitute_variable("calc(var(--a))", &mut context);
    assert!(ret.is_some());
    if let Some(ret) = ret {
        assert_eq!("calc(50px + 20%)", ret);
    }
}

#[test]
fn parenthesis() {
    let mut context = context(&[]);
    let ret = substitute_variable("(20px + 30px)", &mut context);
    assert!(ret.is_some());
    if let Some(ret) = ret {
        assert_eq!("(20px + 30px)", ret);
    }
}

#[test]
fn empty_custom_property() {
    let mut context = context(&[("--a", "")]);
    let ret = substitute_variable("var(--a)", &mut context);
    assert!(ret.is_some());
    if let Some(ret) = ret {
        assert_eq!("", ret);
    }
}

#[test]
fn null_custom_property() {
    let mut context = context(&[]);
    let ret = substitute_variable("var(--a)", &mut context);
    assert!(ret.is_none());
}
#[test]
fn cycle_removes_the_property() {
    let mut context = context(&[("--a", "var(--a, 10px)"), ("--b", "5px")]);
    let ret = substitute_variable("var(--a, 20px)", &mut context);
    assert_eq!(ret, Some("20px".to_string()));
    assert_eq!(context.custom_property("--a"), None);
    assert_eq!(context.custom_property("--b"), Some("5px".to_string()));
}

#[test]
fn defined_variable_keeps_the_table() {
    let mut context = context(&[("--a", "1px solid")]);
    let ret = substitute_variable("  var(--a)  ", &mut context);
    assert_eq!(ret, Some("1px solid".to_string()));
    assert_eq!(context.custom_property("--a"), Some("1px solid".to_string()));
}

#[test]
fn endless_reference_is_refused() {
    let mut context = context(&[("--a", "var(--b, var(--a))")]);
    let ret = substitute_variable("var(--a)", &mut context);
    assert!(ret.is_none());
}

#[test]
fn set_then_read_custom_property() {
    let mut context = CustomPropertyContext::new();
    assert_eq!(context.custom_property("--a"), None);
    context.set_custom_property("--a", Some("red".to_string()));
    assert_eq!(context.custom_property("--a"), Some("red".to_string()));
    context.set_custom_property("--a", Some("blue".to_string()));
    assert_eq!(context.custom_property("--a"), Some("blue".to_string()));
    context.set_custom_property("--a", None);
    assert_eq!(context.custom_property("--a"), None);
}

#[test]
fn nested_blocks_are_written_back() {
    let mut context = context(&[("--w", "3px")]);
    let ret = substitute_variable("translate(calc(var(--w) * 2), (1px))", &mut context);
    assert_eq!(ret, Some("translate(calc(3px * 2), (1px))".to_string()));
}

#[test]
fn malformed_var_is_refused() {
    let mut context = context(&[("--a", "1px")]);
    assert!(substitute_variable("var(--a 2px)", &mut context).is_some());
    assert!(substitute_variable("var(--b 2px)", &mut context).is_none());
    assert!(substitute_variable("var(--)", &mut context).is_none());
    assert!(substitute_variable("var()", &mut context).is_none());
}

#[test]
fn substitute_nodes_over_given_tokens() {
    let mut context = context(&[("--x", "1px  2px")]);
    let nodes = vec![
        CssNode::WhiteSpace(" ".to_string()),
        CssNode::Function(
            "var".to_string(),
            "var(".to_string(),
            Some(vec![CssNode::Ident("--x".to_string(), "--x".to_string())]),
        ),
        CssNode::Other("!".to_string()),
    ];
    assert_eq!(substitute_nodes(&nodes, &mut context), Some("1px  2px!".to_string()));
    let broken = vec![CssNode::Paren("(".to_string(), None)];
    assert_eq!(substitute_nodes(&broken, &mut context), None);
}

#[test]
fn long_chain_of_properties() {
    let mut context = CustomPropertyContext::new();
    for i in 0..300 {
        let value = format!("var(--p{})", i + 1);
        context.set_custom_property(&format!("--p{}", i), Some(value));
    }
    context.set_custom_property("--p300", Some("7px".to_string()));
    assert_eq!(substitute_variable("var(--p0)", &mut context), Some("7px".to_string()));
}
