use dashmap::DashMap;
use srtemplate::error::{FunctionError, TemplateError};
use srtemplate::node::TemplateNode;
use srtemplate::parser::{parse, ParseError};
use srtemplate::render::{finish_call, render, render_node, render_nodes, resolve_variable};
use std::sync::atomic::{AtomicUsize, Ordering};
use std::sync::Arc;
use srtemplate::store::TemplateFunction;

fn to_lower(args: &[String]) -> Result<String, FunctionError> {
    Ok(args.iter().map(|a| a.to_lowercase()).collect::<Vec<_>>().join(" "))
}

fn trim(args: &[String]) -> Result<String, FunctionError> {
    Ok(args.iter().map(|a| a.trim()).collect::<Vec<_>>().join(" "))
}

fn fail(_args: &[String]) -> Result<String, FunctionError> {
    Err(FunctionError { message: "always fails".to_string() })
}

fn vars_of(pairs: &[(&str, &str)]) -> DashMap<String, String> {
    pairs.iter().map(|(k, v)| (k.to_string(), v.to_string())).collect()
}

fn text_functions() -> DashMap<String, TemplateFunction> {
    let funcs = DashMap::new();
    funcs.insert("toLowerCase".to_string(), TemplateFunction::new(to_lower));
    funcs.insert("trim".to_string(), TemplateFunction::new(trim));
    funcs
}

fn render_all(template: &str, vars: &DashMap<String, String>, funcs: &DashMap<String, TemplateFunction>) -> String {
    let nodes = parse(template, "{{", "}}").unwrap();
    let mut res = String::new();
    for node in nodes.into_iter() {
        let out = render_nodes(&mut res, node, vars, funcs);
        assert!(out.is_ok());
    }
    res
}

#[test]
fn basic_render() {
    let vars = vars_of(&[("var", "World")]);
    let template = "Hello {{ var }}";
    let nodes = parse(template, "{{", "}}").unwrap();
    let mut res = String::new();

    for node in nodes.into_iter() {
        let out = render_nodes(&mut res, node, &vars, &DashMap::new());
        assert!(out.is_ok());
    }

    assert_eq!(&res, "Hello World");
}

#[test]
fn basic_function_render() {
    let vars = vars_of(&[("var", "WoRlD")]);
    let funcs = DashMap::new();
    funcs.insert("toLowerCase".to_string(), TemplateFunction::new(to_lower));
    let template = "Hello {{ toLowerCase(var) }}";
    let nodes = parse(template, "{{", "}}").unwrap();
    let mut res = String::new();

    for node in nodes.into_iter() {
        let out = render_nodes(&mut res, node, &vars, &funcs);
        assert!(out.is_ok());
    }

    assert_eq!(&res, "Hello world");
}

#[test]
fn recursive_function_render() {
    let vars = vars_of(&[("var", "WoRlD")]);
    let funcs = text_functions();
    let template = "Hello {{ toLowerCase(trim(var)) }}";
    let nodes = parse(template, "{{", "}}").unwrap();
    let mut res = String::new();

    for node in nodes.into_iter() {
        let out = render_nodes(&mut res, node, &vars, &funcs);
        assert!(out.is_ok());
    }

    assert_eq!(&res, "Hello world");
}

#[test]
fn raw_string_render() {
    let vars = vars_of(&[("var", "    WoRlD")]);
    let funcs = text_functions();
    let template = "Hello\n{{ toLowerCase(trim(var, \"  !   \")) }}";
    let nodes = parse(template, "{{", "}}").unwrap();
    let mut res = String::new();

    for node in nodes.into_iter() {
        let out = render_nodes(&mut res, node, &vars, &funcs);
        assert!(out.is_ok());
    }

    assert_eq!(&res, "Hello\nworld !");
}

#[test]
fn literal_template_renders_to_itself() {
    let vars = vars_of(&[]);
    let funcs = DashMap::new();
    for t in ["", "plain text", "a } b }} c {", "line\n  two\t"] {
        let nodes = parse(t, "{{", "}}").unwrap();
        assert_eq!(render(&nodes, &vars, &funcs).unwrap(), t);
    }
}

#[test]
fn single_variable_is_inserted_verbatim() {
    let vars = vars_of(&[("name", "  MiXeD Case  ")]);
    let funcs = DashMap::new();
    let out = render_all("<{{name}}>", &vars, &funcs);
    assert_eq!(out, "<  MiXeD Case  >");
}

#[test]
fn missing_variable_keeps_earlier_output() {
    let vars = vars_of(&[("a", "A")]);
    let funcs = DashMap::new();
    let nodes = parse("x{{ a }}y{{ missing }}z", "{{", "}}").unwrap();
    let mut res = String::new();
    let mut errors = Vec::new();
    for node in nodes.into_iter() {
        if let Err(e) = render_nodes(&mut res, node, &vars, &funcs) {
            errors.push(e);
            break;
        }
    }
    assert_eq!(res, "xAy");
    assert_eq!(errors, vec![TemplateError::VariableNotFound("missing".to_string())]);
}

#[test]
fn missing_function_is_reported_by_name() {
    let vars = vars_of(&[("v", "x")]);
    let funcs = text_functions();
    let nodes = parse("{{ nope(v) }}", "{{", "}}").unwrap();
    let r = render(&nodes, &vars, &funcs);
    assert_eq!(r, Err(TemplateError::FunctionNotImplemented("nope".to_string())));
}

#[test]
fn arguments_fail_before_missing_function() {
    let vars = vars_of(&[]);
    let funcs = text_functions();
    let nodes = parse("{{ nope(absent) }}", "{{", "}}").unwrap();
    let r = render(&nodes, &vars, &funcs);
    assert_eq!(r, Err(TemplateError::VariableNotFound("absent".to_string())));
}

#[test]
fn function_error_is_propagated() {
    let vars = vars_of(&[("v", "x")]);
    let funcs = text_functions();
    funcs.insert("fail".to_string(), TemplateFunction::new(fail));
    let nodes = parse("{{ trim(fail(v)) }}", "{{", "}}").unwrap();
    let r = render(&nodes, &vars, &funcs);
    assert_eq!(r, Err(TemplateError::Function(FunctionError { message: "always fails".to_string() })));
}

#[test]
fn nested_calls_run_innermost_first() {
    let vars = vars_of(&[("x", "  AbC  ")]);
    let funcs = text_functions();
    funcs.insert(
        "first".to_string(),
        TemplateFunction::new(|args: &[String]| Ok(args[0].chars().take(1).collect())),
    );
    let out = render_all("{{ first(trim(x)) }}|{{ trim(first(x)) }}", &vars, &funcs);
    assert_eq!(out, "A|");
}

#[test]
fn rendering_twice_gives_the_same_output() {
    let vars = vars_of(&[("var", "WoRlD")]);
    let funcs = text_functions();
    let nodes = parse("Hi {{ toLowerCase(var) }}!", "{{", "}}").unwrap();
    let first = render(&nodes, &vars, &funcs).unwrap();
    let second = render(&nodes, &vars, &funcs).unwrap();
    assert_eq!(first, "Hi world!");
    assert_eq!(first, second);
    vars.insert("var".to_string(), "AGAIN".to_string());
    assert_eq!(render(&nodes, &vars, &funcs).unwrap(), "Hi again!");
}

#[test]
fn render_node_returns_fresh_text() {
    let vars = vars_of(&[("v", "value")]);
    let funcs = DashMap::new();
    let node = TemplateNode::Variable("v".to_string());
    assert_eq!(render_node(node, &vars, &funcs).unwrap(), "value");
    let lit = TemplateNode::Number("42".to_string());
    assert_eq!(render_node(lit, &vars, &funcs).unwrap(), "42");
}

#[test]
fn parse_builds_typed_nodes() {
    let nodes = parse("a{{ f(x, \"s, (t\", 12, 3.5, g()) }}{{y}}", "{{", "}}").unwrap();
    assert_eq!(
        nodes,
        vec![
            TemplateNode::RawText("a".to_string()),
            TemplateNode::Function(
                "f".to_string(),
                vec![
                    TemplateNode::Variable("x".to_string()),
                    TemplateNode::String("s, (t".to_string()),
                    TemplateNode::Number("12".to_string()),
                    TemplateNode::Float("3.5".to_string()),
                    TemplateNode::Function("g".to_string(), vec![]),
                ],
            ),
            TemplateNode::Variable("y".to_string()),
        ]
    );
}

#[test]
fn parse_empty_template() {
    assert_eq!(parse("", "{{", "}}").unwrap(), vec![]);
}

#[test]
fn parse_other_delimiters() {
    let nodes = parse("<% v %> end", "<%", "%>").unwrap();
    assert_eq!(
        nodes,
        vec![TemplateNode::Variable("v".to_string()), TemplateNode::RawText(" end".to_string())]
    );
}

#[test]
fn parse_unterminated_expression() {
    assert_eq!(parse("ab{{ v", "{{", "}}"), Err(ParseError::Unterminated(2)));
}

#[test]
fn parse_invalid_expressions() {
    for (t, inner) in [
        ("{{ }}", " "),
        ("{{ f(a }}", " f(a "),
        ("{{ f(a)) }}", " f(a)) "),
        ("{{ 1abc }}", " 1abc "),
        ("{{ \"open }}", " \"open "),
        ("{{ f(a,) }}", " f(a,) "),
        ("{{ (a) }}", " (a) "),
    ] {
        assert_eq!(parse(t, "{{", "}}"), Err(ParseError::InvalidExpression(inner.to_string())));
    }
}

#[test]
fn resolve_variable_cases() {
    let name = "who".to_string();
    assert_eq!(resolve_variable(&name, Some("x y".to_string())), Ok("x y".to_string()));
    assert_eq!(resolve_variable(&name, None), Err(TemplateError::VariableNotFound("who".to_string())));
}

#[test]
fn finish_call_cases() {
    let name = "f".to_string();
    assert_eq!(finish_call(&name, None), Err(TemplateError::FunctionNotImplemented("f".to_string())));
    assert_eq!(finish_call(&name, Some(Ok("out".to_string()))), Ok("out".to_string()));
    let e = FunctionError { message: "bad".to_string() };
    assert_eq!(finish_call(&name, Some(Err(e.clone()))), Err(TemplateError::Function(e)));
}

#[test]
fn functions_with_side_effects_are_called_once_per_use() {
    let vars = vars_of(&[]);
    let funcs = DashMap::new();
    let count = Arc::new(AtomicUsize::new(0));
    let c = count.clone();
    funcs.insert(
        "n".to_string(),
        TemplateFunction::new(move |_args: &[String]| Ok(c.fetch_add(1, Ordering::SeqCst).to_string())),
    );
    let nodes = parse("{{ n() }}{{ n() }}", "{{", "}}").unwrap();
    assert_eq!(render(&nodes, &vars, &funcs).unwrap(), "01");
    assert_eq!(count.load(Ordering::SeqCst), 2);
}
