use dq::formats::{expression_func_name, is_hcl_expression};
use dq::hcl_syntax::{body_items, body_map, expr_value, template_text_of, raw_text_of, strip_char_of, HclExpr, HclOperator, HclStructure};
use dq::value::{FloatValue, Value};

// HCL text parsed by hcl-rs and handed over item for item, as the
// command-line tool does it.

fn syntax_body(body: &hcl::Body) -> Vec<HclStructure> {
    body.iter()
        .map(|structure| match structure {
            hcl::Structure::Attribute(attr) => HclStructure::Attribute(attr.key.as_str().to_string(), syntax_expr(&attr.expr)),
            hcl::Structure::Block(block) => HclStructure::Block(
                block.identifier.as_str().to_string(),
                block.labels.iter().map(|l| l.as_str().to_string()).collect(),
                syntax_body(&block.body),
            ),
        })
        .collect()
}

fn boxed(e: &hcl::Expression) -> Box<HclExpr> {
    Box::new(syntax_expr(e))
}

fn syntax_expr(expr: &hcl::Expression) -> HclExpr {
    match expr {
        hcl::Expression::Null => HclExpr::Literal(Value::null()),
        hcl::Expression::Bool(b) => HclExpr::Literal(Value::bool(*b)),
        hcl::Expression::Number(n) => HclExpr::Literal(match n.as_i64() {
            Some(i) => Value::integer(i),
            None => {
                let f = n.as_f64().unwrap();
                Value::Float(FloatValue { bits: f.to_bits(), text: format!("{f}") })
            }
        }),
        hcl::Expression::String(s) => HclExpr::Literal(Value::string(s)),
        hcl::Expression::Array(arr) => HclExpr::Array(arr.iter().map(syntax_expr).collect()),
        hcl::Expression::Object(obj) => HclExpr::Object(
            obj.iter()
                .map(|(k, v)| {
                    let key = match k {
                        hcl::ObjectKey::Identifier(id) => id.as_str().to_string(),
                        other => format!("{other:?}"),
                    };
                    (key, syntax_expr(v))
                })
                .collect(),
        ),
        hcl::Expression::Variable(var) => HclExpr::Variable(var.as_str().to_string()),
        hcl::Expression::Traversal(t) => HclExpr::Traversal(
            boxed(&t.expr),
            t.operators
                .iter()
                .map(|op| match op {
                    hcl::TraversalOperator::GetAttr(id) => HclOperator::GetAttr(id.as_str().to_string()),
                    hcl::TraversalOperator::Index(e) => HclOperator::Index(syntax_expr(e)),
                    hcl::TraversalOperator::AttrSplat => HclOperator::AttrSplat,
                    hcl::TraversalOperator::FullSplat => HclOperator::FullSplat,
                    _ => HclOperator::Unknown,
                })
                .collect(),
        ),
        hcl::Expression::FuncCall(fc) => HclExpr::FuncCall(
            fc.name.namespace.iter().map(|id| id.as_str().to_string()).collect(),
            fc.name.name.as_str().to_string(),
            fc.args.iter().map(syntax_expr).collect(),
        ),
        hcl::Expression::Conditional(c) => HclExpr::Conditional(boxed(&c.cond_expr), boxed(&c.true_expr), boxed(&c.false_expr)),
        hcl::Expression::Operation(op) => match op.as_ref() {
            hcl::Operation::Binary(bin) => HclExpr::Binary(boxed(&bin.lhs_expr), boxed(&bin.rhs_expr)),
            hcl::Operation::Unary(un) => HclExpr::Unary(boxed(&un.expr)),
        },
        hcl::Expression::ForExpr(f) => HclExpr::For(
            f.value_var.as_str().to_string(),
            f.key_var.as_ref().map(|k| k.as_str().to_string()),
            boxed(&f.collection_expr),
        ),
        hcl::Expression::TemplateExpr(t) => HclExpr::Template(
            hcl::to_string(&hcl::Attribute::new("_t", hcl::Expression::TemplateExpr(t.clone()))).unwrap_or_default(),
        ),
        other => HclExpr::Other(hcl::to_string(&hcl::Attribute::new("_v", other.clone())).ok(), format!("{other:?}")),
    }
}

fn parse_hcl(input: &[u8]) -> Value {
    let body: hcl::Body = hcl::from_str(std::str::from_utf8(input).unwrap()).unwrap();
    body_map(&syntax_body(&body))
}

fn body_get<'a>(body: &'a [(String, Value)], k: &str) -> Option<&'a Value> {
    body.iter().find(|(key, _)| key == k).map(|(_, v)| v)
}

#[test]
fn hcl_parse_attribute() {
    let val = parse_hcl(b"name = \"test\"\ncount = 42");
    assert_eq!(val.get("name"), Some(&Value::string("test")));
    assert_eq!(val.get("count"), Some(&Value::integer(42)));
}

#[test]
fn hcl_parse_block() {
    let val = parse_hcl(b"resource \"aws_instance\" \"web\" {\n  ami = \"ami-12345\"\n}");
    let blocks = val.find_blocks("resource");
    assert_eq!(blocks.len(), 1);
    assert_eq!(blocks[0].labels[0], "aws_instance");
    assert_eq!(blocks[0].labels[1], "web");
    assert_eq!(body_get(&blocks[0].body, "ami"), Some(&Value::string("ami-12345")));
}

#[test]
fn hcl_parse_multiple_blocks() {
    let val = parse_hcl(b"dependency \"vpc\" {\n  config_path = \"../vpc\"\n}\ndependency \"rds\" {\n  config_path = \"../rds\"\n}");
    let blocks = val.find_blocks("dependency");
    assert_eq!(blocks.len(), 2);
}

#[test]
fn hcl_preserve_variable_expression() {
    let val = parse_hcl(b"value = var.region");
    let expr = val.get("value").unwrap();
    assert_eq!(expr.get("__expr").unwrap().as_str(), Some("traversal"));
    let root = expr.get("root").unwrap();
    assert_eq!(root.get("__expr").unwrap().as_str(), Some("variable"));
    assert_eq!(root.get("name").unwrap().as_str(), Some("var"));
    let ops = expr.get("operators").unwrap().as_array().unwrap();
    assert!(ops.len() >= 1);
}

#[test]
fn hcl_preserve_traversal_expression() {
    let val = parse_hcl(b"value = local.config.vpc_id");
    let expr = val.get("value").unwrap();
    assert_eq!(expr.get("__expr").unwrap().as_str(), Some("traversal"));
    let ops = expr.get("operators").unwrap().as_array().unwrap();
    assert!(ops.len() >= 1);
}

#[test]
fn hcl_preserve_function_call() {
    let val = parse_hcl(b"value = upper(\"hello\")");
    let expr = val.get("value").unwrap();
    assert_eq!(expr.get("__expr").unwrap().as_str(), Some("func_call"));
    assert_eq!(expr.get("name").unwrap().as_str(), Some("upper"));
    let args = expr.get("args").unwrap().as_array().unwrap();
    assert_eq!(args.len(), 1);
}

#[test]
fn hcl_preserve_conditional_expression() {
    let val = parse_hcl(b"value = true ? \"yes\" : \"no\"");
    let expr = val.get("value").unwrap();
    assert_eq!(expr.get("__expr").unwrap().as_str(), Some("conditional"));
    assert!(expr.get("condition").is_some());
    assert!(expr.get("true_val").is_some());
    assert!(expr.get("false_val").is_some());
}

#[test]
fn hcl_is_expression_check() {
    let val = parse_hcl(b"name = \"literal\"\nexpr = var.region");
    assert!(!is_hcl_expression(val.get("name").unwrap()));
    assert!(is_hcl_expression(val.get("expr").unwrap()));
}

#[test]
fn hcl_expression_func_name_extraction() {
    let val = parse_hcl(b"value = jsonencode({})");
    let expr = val.get("value").unwrap();
    assert_eq!(expression_func_name(expr), Some("jsonencode"));
}

#[test]
fn every_block_type_is_a_list() {
    let val = parse_hcl(b"terraform {\n  source = \".\"\n}\nname = \"x\"");
    let tf = val.get("terraform").unwrap().as_array().unwrap();
    assert_eq!(tf.len(), 1);
    assert!(tf[0].is_block());
    assert_eq!(val.keys(), vec!["terraform", "name"]);
    // a repeated attribute keeps its first place and takes the last value
    let items = vec![
        HclStructure::Attribute("name".to_string(), HclExpr::Literal(Value::string("x"))),
        HclStructure::Attribute("other".to_string(), HclExpr::Literal(Value::null())),
        HclStructure::Attribute("name".to_string(), HclExpr::Literal(Value::string("y"))),
    ];
    let v = body_map(&items);
    assert_eq!(v.get("name"), Some(&Value::string("y")));
    assert_eq!(v.keys(), vec!["name", "other"]);
}

#[test]
fn block_after_attribute_of_same_name_pairs_with_it() {
    let items = vec![
        HclStructure::Attribute("locals".to_string(), HclExpr::Literal(Value::integer(1))),
        HclStructure::Block("locals".to_string(), vec![], vec![]),
    ];
    let v = body_map(&items);
    let pair = v.get("locals").unwrap().as_array().unwrap();
    assert_eq!(pair.len(), 2);
    assert_eq!(pair[0], Value::integer(1));
    assert!(pair[1].is_block());
}

#[test]
fn namespaced_call_name_and_for_expression() {
    let call = HclExpr::FuncCall(vec!["provider".to_string(), "aws".to_string()], "arn".to_string(), vec![]);
    assert_eq!(expr_value(&call).get("name").unwrap().as_str(), Some("provider::aws::arn"));
    let f = HclExpr::For("v".to_string(), Some("k".to_string()), Box::new(HclExpr::Variable("xs".to_string())));
    let fv = expr_value(&f);
    assert_eq!(fv.get("__expr").unwrap().as_str(), Some("for_expr"));
    assert_eq!(fv.keys(), vec!["__expr", "value_var", "collection", "key_var"]);
}

#[test]
fn template_and_raw_texts() {
    assert_eq!(template_text_of("_t = \"${var.env}-app\"\n"), "${var.env}-app");
    assert_eq!(template_text_of("no assignment"), "");
    assert_eq!(raw_text_of(&Some("_v = a[0]\n".to_string()), "dbg"), "a[0]");
    assert_eq!(raw_text_of(&None, "dbg"), "dbg");
    assert_eq!(strip_char_of("\"\"x\"", '"'), "x");
    assert_eq!(strip_char_of("\"\"", '"'), "");
}

#[test]
fn parsed_template_keeps_its_text() {
    let val = parse_hcl(b"value = \"${var.env}-app\"");
    let expr = val.get("value").unwrap();
    assert_eq!(expr.get("__expr").unwrap().as_str(), Some("template"));
    assert_eq!(expr.get("template").unwrap().as_str(), Some("${var.env}-app"));
}

// Values written back as HCL text through hcl-rs, as the command-line
// tool does it.

fn hcl_expression(e: &HclExpr) -> hcl::Expression {
    match e {
        HclExpr::Literal(v) => {
            if let Some(b) = v.as_bool() {
                hcl::Expression::Bool(b)
            } else if let Some(n) = v.as_i64() {
                hcl::Expression::Number(n.into())
            } else if let Some(s) = v.as_str() {
                hcl::Expression::String(s.to_string())
            } else {
                hcl::Expression::Null
            }
        }
        HclExpr::Array(a) => hcl::Expression::Array(a.iter().map(hcl_expression).collect()),
        HclExpr::Object(kv) => {
            let obj: Vec<(hcl::ObjectKey, hcl::Expression)> = kv
                .iter()
                .map(|(k, v)| (hcl::ObjectKey::Identifier(hcl::Identifier::unchecked(k.as_str())), hcl_expression(v)))
                .collect();
            hcl::Expression::Object(obj.into_iter().collect())
        }
        _ => hcl::Expression::Null,
    }
}

fn hcl_structure(s: &HclStructure) -> hcl::Structure {
    match s {
        HclStructure::Attribute(k, e) => hcl::Structure::Attribute(hcl::Attribute::new(hcl::Identifier::unchecked(k.as_str()), hcl_expression(e))),
        HclStructure::Block(t, labels, items) => hcl::Structure::Block(hcl::Block {
            identifier: hcl::Identifier::unchecked(t.as_str()),
            labels: labels.iter().map(|l| hcl::BlockLabel::String(l.clone())).collect(),
            body: hcl::Body(items.iter().map(hcl_structure).collect()),
        }),
    }
}

fn write_hcl(v: &Value) -> String {
    hcl::format::to_string(&hcl::Body(body_items(v).iter().map(hcl_structure).collect())).unwrap()
}

#[test]
fn hcl_serialize_attributes() {
    let val = Value::from_pairs(vec![("name", Value::string("test")), ("count", Value::integer(42))]);
    let text = write_hcl(&val);
    assert!(text.contains("name"));
    assert!(text.contains("test"));
}

#[test]
fn hcl_serialize_block() {
    let val = Value::from_pairs(vec![(
        "resource",
        Value::block("resource", vec!["aws_instance".to_string(), "web".to_string()], vec![("ami".to_string(), Value::string("ami-12345"))]),
    )]);
    let text = write_hcl(&val);
    assert!(text.contains("resource"));
    assert!(text.contains("aws_instance"));
    assert!(text.contains("ami-12345"));
}

#[test]
fn lists_of_blocks_become_blocks() {
    let b1 = Value::block("dependency", vec!["vpc".to_string()], vec![("config_path".to_string(), Value::string("../vpc"))]);
    let b2 = Value::block("dependency", vec!["rds".to_string()], vec![]);
    let val = Value::from_pairs(vec![
        ("dependency", Value::array(vec![b1, b2])),
        ("empty", Value::array(vec![])),
        ("mixed", Value::array(vec![Value::integer(1)])),
        ("stamp", Value::datetime("2024-01-01T00:00:00Z")),
    ]);
    let items = body_items(&val);
    assert_eq!(items.len(), 4);
    match &items[0] {
        HclStructure::Block(t, labels, body) => {
            assert_eq!(t, "dependency");
            assert_eq!(labels, &vec!["vpc".to_string()]);
            assert_eq!(body.len(), 1);
        }
        _ => panic!("expected a block"),
    }
    assert!(matches!(&items[1], HclStructure::Block(_, _, _)));
    assert!(matches!(&items[2], HclStructure::Attribute(k, HclExpr::Array(a)) if k == "mixed" && a.len() == 1));
    assert!(matches!(&items[3], HclStructure::Attribute(k, HclExpr::Literal(Value::String(s))) if k == "stamp" && s == "2024-01-01T00:00:00Z"));
    // round trip through HCL text
    let back = parse_hcl(write_hcl(&val).as_bytes());
    assert_eq!(back.find_blocks("dependency").len(), 2);
}

#[test]
fn scalar_body_is_one_attribute() {
    let items = body_items(&Value::integer(7));
    assert_eq!(items.len(), 1);
    assert!(matches!(&items[0], HclStructure::Attribute(k, HclExpr::Literal(Value::Int(7))) if k == "value"));
}
