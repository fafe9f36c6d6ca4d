use zlang::ir::{IrBlock, IrData, IrFunction, IrInstr, IrItem, IrLinkage, IrModule, IrType, IrValue};
use zlang::{compile, parse_ast, Atom, Expr, NodeKind, Place, UnsupportedConstruct};

fn lower(text: &str) -> Result<IrModule, UnsupportedConstruct> {
    compile(&parse_ast(text).unwrap())
}

fn private(name: &str, items: Vec<(IrType, IrItem)>) -> IrData {
    IrData { linkage: IrLinkage::Private, name: name.to_string(), items }
}

fn text_items(raw: &str) -> Vec<(IrType, IrItem)> {
    vec![(IrType::Byte, IrItem::Str(raw.to_string())), (IrType::Byte, IrItem::Const(0))]
}

fn public(name: &str, mut instrs: Vec<IrInstr>) -> IrFunction {
    instrs.push(IrInstr::Ret(IrValue::Const(0)));
    IrFunction {
        linkage: IrLinkage::Public,
        name: name.to_string(),
        arguments: vec![],
        return_ty: IrType::Word,
        blocks: vec![IrBlock { label: "start".to_string(), instrs }],
    }
}

fn unsupported(kind: NodeKind, place: Place) -> UnsupportedConstruct {
    UnsupportedConstruct { kind, place }
}

#[test]
fn empty_program_lowers_to_empty_module() {
    assert_eq!(compile(&[]), Ok(IrModule { functions: vec![], data: vec![] }));
}

#[test]
fn declared_string_is_bytes_and_a_zero() {
    let module = lower("fn main() { greeting := \"Hello\" }").unwrap();
    assert_eq!(module.data, vec![private("greeting", text_items("Hello"))]);
    let def = &module.data[0];
    let mut bytes: Vec<u8> = Vec::new();
    for (ty, item) in &def.items {
        assert_eq!(*ty, IrType::Byte);
        match item {
            IrItem::Str(raw) => bytes.extend_from_slice(raw.as_bytes()),
            IrItem::Const(bits) => bytes.push(*bits as u8),
            IrItem::Symbol(_) => panic!("no symbol expected"),
        }
    }
    assert_eq!(bytes.len(), "Hello".len() + 1);
    assert_eq!(bytes, b"Hello\0");
}

#[test]
fn declared_empty_string_is_one_zero_byte() {
    let module = lower("fn main() { e := \"\" }").unwrap();
    assert_eq!(module.data, vec![private("e", text_items(""))]);
}

#[test]
fn declared_number_is_a_word_constant() {
    let module = lower("fn main() { n := 42 m := -2 }").unwrap();
    assert_eq!(
        module.data,
        vec![
            private("n", vec![(IrType::Word, IrItem::Const(42))]),
            private("m", vec![(IrType::Word, IrItem::Const(18446744073709551614))]),
        ]
    );
}

#[test]
fn declared_float_is_a_double_constant() {
    let module = lower("fn main() { f := +1.5 }").unwrap();
    assert_eq!(
        module.data,
        vec![private("f", vec![(IrType::Double, IrItem::Const(0x3ff8_0000_0000_0000))])]
    );
}

#[test]
fn declared_symbol_is_the_address_of_a_global() {
    let module = lower("fn main() { a := b }").unwrap();
    assert_eq!(
        module.data,
        vec![private("a", vec![(IrType::Long, IrItem::Symbol("b".to_string()))])]
    );
}

#[test]
fn call_arguments_become_operands_in_order() {
    let module = lower("fn main() { f(x, 7, -1, +2.5) }").unwrap();
    assert_eq!(
        module.functions,
        vec![public(
            "main",
            vec![IrInstr::Call(
                "f".to_string(),
                vec![
                    (IrType::Long, IrValue::Global("x".to_string())),
                    (IrType::Long, IrValue::Const(7)),
                    (IrType::Long, IrValue::Const(u64::MAX)),
                    (IrType::Double, IrValue::Const(2.5f64.to_bits())),
                ]
            )]
        )]
    );
    assert_eq!(module.data, vec![]);
}

#[test]
fn string_argument_is_put_into_data_before_the_call() {
    let module = lower("fn main() { a := 1 puts(\"hi\", \"there\") puts(\"again\") }").unwrap();
    assert_eq!(
        module.data,
        vec![
            private("a", vec![(IrType::Word, IrItem::Const(1))]),
            private("str.1", text_items("hi")),
            private("str.2", text_items("there")),
            private("str.3", text_items("again")),
        ]
    );
    assert_eq!(
        module.functions,
        vec![public(
            "main",
            vec![
                IrInstr::Call(
                    "puts".to_string(),
                    vec![
                        (IrType::Long, IrValue::Global("str.1".to_string())),
                        (IrType::Long, IrValue::Global("str.2".to_string())),
                    ]
                ),
                IrInstr::Call(
                    "puts".to_string(),
                    vec![(IrType::Long, IrValue::Global("str.3".to_string()))]
                ),
            ]
        )]
    );
}

#[test]
fn names_of_string_arguments_count_in_decimal() {
    let mut body = String::new();
    for _ in 0..12 {
        body.push_str("x := 0 ");
    }
    body.push_str("f(\"s\")");
    let module = lower(&format!("fn main() {{ {} }}", body)).unwrap();
    assert_eq!(module.data.len(), 13);
    assert_eq!(module.data[12], private("str.12", text_items("s")));
}

#[test]
fn every_function_ends_in_return_zero() {
    let module = lower("fn a() { } fn b(x) { y := x f(y) g() } fn c() { h(1) }").unwrap();
    assert_eq!(module.functions.len(), 3);
    let names: Vec<&str> = module.functions.iter().map(|f| f.name.as_str()).collect();
    assert_eq!(names, vec!["a", "b", "c"]);
    for function in &module.functions {
        assert_eq!(function.linkage, IrLinkage::Public);
        assert_eq!(function.arguments, vec![]);
        assert_eq!(function.return_ty, IrType::Word);
        assert_eq!(function.blocks.len(), 1);
        assert_eq!(function.blocks[0].label, "start");
        assert_eq!(function.blocks[0].instrs.last(), Some(&IrInstr::Ret(IrValue::Const(0))));
    }
    assert_eq!(module.functions[1].blocks[0].instrs.len(), 3);
}

#[test]
fn declarations_of_all_functions_share_one_module() {
    let module = lower("fn a() { x := 1 } fn b() { y := 2 f(x) }").unwrap();
    assert_eq!(
        module.data,
        vec![
            private("x", vec![(IrType::Word, IrItem::Const(1))]),
            private("y", vec![(IrType::Word, IrItem::Const(2))]),
        ]
    );
}

#[test]
fn reference_before_declaration_is_lowered_as_it_stands() {
    let module = lower("fn main() { f(later) later := 1 }").unwrap();
    assert_eq!(
        module.functions[0].blocks[0].instrs[0],
        IrInstr::Call("f".to_string(), vec![(IrType::Long, IrValue::Global("later".to_string()))])
    );
    assert_eq!(module.data, vec![private("later", vec![(IrType::Word, IrItem::Const(1))])]);
}

#[test]
fn node_outside_a_function_is_unsupported() {
    assert_eq!(lower("x"), Err(unsupported(NodeKind::Constant, Place::TopLevel)));
    assert_eq!(lower("x := 1"), Err(unsupported(NodeKind::Declare, Place::TopLevel)));
    assert_eq!(lower("f(x)"), Err(unsupported(NodeKind::Call, Place::TopLevel)));
    assert_eq!(
        lower("fn main() { } x := 1 fn other() { }"),
        Err(unsupported(NodeKind::Declare, Place::TopLevel))
    );
}

#[test]
fn constant_and_function_in_a_body_are_unsupported() {
    assert_eq!(lower("fn main() { x }"), Err(unsupported(NodeKind::Constant, Place::Body)));
    assert_eq!(
        lower("fn main() { fn inner() { } }"),
        Err(unsupported(NodeKind::Function, Place::Body))
    );
    assert_eq!(
        lower("fn main() { a := 1 \"s\" fn inner() { } }"),
        Err(unsupported(NodeKind::Constant, Place::Body))
    );
}

#[test]
fn argument_that_is_no_constant_is_unsupported() {
    let call = |args: Vec<Expr>| Expr::Function {
        name: "main".to_string(),
        args: vec![],
        body: vec![Expr::Call { name: "f".to_string(), args }],
    };
    let inner = Expr::Call { name: "g".to_string(), args: vec![] };
    assert_eq!(
        compile(&[call(vec![Expr::Constant(Atom::Number(1)), inner])]),
        Err(unsupported(NodeKind::Call, Place::Argument))
    );
    let declare = Expr::Declare { name: "x".to_string(), value: Atom::Number(1) };
    assert_eq!(
        compile(&[call(vec![declare])]),
        Err(unsupported(NodeKind::Declare, Place::Argument))
    );
    let nested = Expr::Function { name: "h".to_string(), args: vec![], body: vec![] };
    assert_eq!(
        compile(&[call(vec![nested])]),
        Err(unsupported(NodeKind::Function, Place::Argument))
    );
}

#[test]
fn first_unsupported_node_is_reported() {
    assert_eq!(
        lower("fn a() { f(1) x } y"),
        Err(unsupported(NodeKind::Constant, Place::Body))
    );
    assert_eq!(
        lower("y fn a() { x }"),
        Err(unsupported(NodeKind::Constant, Place::TopLevel))
    );
}

#[test]
fn parameters_are_not_lowered() {
    assert_eq!(lower("fn f(a, b) { }"), lower("fn f() { }"));
}
