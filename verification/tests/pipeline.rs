use zlang::ir::{
    IrBlock, IrData, IrFunction, IrInstr, IrItem, IrLinkage, IrModule, IrType, IrValue,
};
use zlang::{
    artifacts, command, compile, compile_text, emit, parse_ast, to_backend, Artifacts, Atom,
    Command, Error, Expr, NodeKind, ParseError, ParseErrorKind, Place, UnsupportedConstruct,
};

fn main_function(instrs: Vec<IrInstr>) -> IrFunction {
    IrFunction {
        linkage: IrLinkage::Public,
        name: "main".to_string(),
        arguments: vec![],
        return_ty: IrType::Word,
        blocks: vec![IrBlock { label: "start".to_string(), instrs }],
    }
}

#[test]
fn empty_main_parses_to_one_function_node() {
    let ast = parse_ast("fn main() { }").unwrap();
    assert_eq!(
        ast,
        vec![Expr::Function { name: "main".to_string(), args: vec![], body: vec![] }]
    );
}

#[test]
fn empty_main_lowers_to_a_function_that_returns_zero() {
    let ast = parse_ast("fn main() { }").unwrap();
    let module = compile(&ast).unwrap();
    assert_eq!(
        module,
        IrModule {
            functions: vec![main_function(vec![IrInstr::Ret(IrValue::Const(0))])],
            data: vec![],
        }
    );
    assert_eq!(emit(&module), "export function w $main() {\n@start\n\tret 0\n}\n");
}

#[test]
fn hello_world_parses_to_declare_and_call() {
    let ast = parse_ast("fn main() { name := \"World\" printf(name) }").unwrap();
    assert_eq!(
        ast,
        vec![Expr::Function {
            name: "main".to_string(),
            args: vec![],
            body: vec![
                Expr::Declare {
                    name: "name".to_string(),
                    value: Atom::String("World".to_string()),
                },
                Expr::Call {
                    name: "printf".to_string(),
                    args: vec![Expr::Constant(Atom::Symbol("name".to_string()))],
                },
            ],
        }]
    );
}

#[test]
fn hello_world_lowers_to_data_and_call() {
    let ast = parse_ast("fn main() { name := \"World\" printf(name) }").unwrap();
    let module = compile(&ast).unwrap();
    assert_eq!(
        module,
        IrModule {
            functions: vec![main_function(vec![
                IrInstr::Call(
                    "printf".to_string(),
                    vec![(IrType::Long, IrValue::Global("name".to_string()))],
                ),
                IrInstr::Ret(IrValue::Const(0)),
            ])],
            data: vec![IrData {
                linkage: IrLinkage::Private,
                name: "name".to_string(),
                items: vec![
                    (IrType::Byte, IrItem::Str("World".to_string())),
                    (IrType::Byte, IrItem::Const(0)),
                ],
            }],
        }
    );
    assert_eq!(
        emit(&module),
        "export function w $main() {\n@start\n\tcall $printf(l $name)\n\tret 0\n}\n\
         data $name = { b \"World\", b 0 }\n"
    );
}

#[test]
fn backend_module_is_what_the_builder_calls_make() {
    let ast = parse_ast("fn main() { name := \"World\" printf(name) }").unwrap();
    let module = compile(&ast).unwrap();
    let mut expected = qbe::Module::new();
    let mut func = qbe::Function::new(
        qbe::Linkage::public(),
        "main",
        Vec::new(),
        Some(qbe::Type::Word),
    );
    func.add_block("start");
    func.add_instr(qbe::Instr::Call(
        "printf".to_string(),
        vec![(qbe::Type::Long, qbe::Value::Global("name".to_string()))],
        None,
    ));
    func.add_instr(qbe::Instr::Ret(Some(qbe::Value::Const(0))));
    expected.add_function(func);
    expected.add_data(qbe::DataDef::new(
        qbe::Linkage::private(),
        "name",
        None,
        vec![
            (qbe::Type::Byte, qbe::DataItem::Str("World".to_string())),
            (qbe::Type::Byte, qbe::DataItem::Const(0)),
        ],
    ));
    assert_eq!(to_backend(&module), expected);
}

#[test]
fn every_kind_of_value_reaches_the_backend() {
    let text = "fn main() { s := \"hi\" n := -2 f := +1.5 a := s printf(s, 7, +2.5, \"lit\", n) }";
    let module = compile(&parse_ast(text).unwrap()).unwrap();
    let mut expected = qbe::Module::new();
    let mut func =
        qbe::Function::new(qbe::Linkage::public(), "main", Vec::new(), Some(qbe::Type::Word));
    func.add_block("start");
    func.add_instr(qbe::Instr::Call(
        "printf".to_string(),
        vec![
            (qbe::Type::Long, qbe::Value::Global("s".to_string())),
            (qbe::Type::Long, qbe::Value::Const(7)),
            (qbe::Type::Double, qbe::Value::Const(2.5f64.to_bits())),
            (qbe::Type::Long, qbe::Value::Global("str.4".to_string())),
            (qbe::Type::Long, qbe::Value::Global("n".to_string())),
        ],
        None,
    ));
    func.add_instr(qbe::Instr::Ret(Some(qbe::Value::Const(0))));
    expected.add_function(func);
    let text_of = |raw: &str| {
        vec![
            (qbe::Type::Byte, qbe::DataItem::Str(raw.to_string())),
            (qbe::Type::Byte, qbe::DataItem::Const(0)),
        ]
    };
    let private = |name: &str, items| qbe::DataDef::new(qbe::Linkage::private(), name, None, items);
    expected.add_data(private("s", text_of("hi")));
    expected.add_data(private("n", vec![(qbe::Type::Word, qbe::DataItem::Const((-2i64) as u64))]));
    expected.add_data(private(
        "f",
        vec![(qbe::Type::Double, qbe::DataItem::Const(1.5f64.to_bits()))],
    ));
    expected.add_data(private(
        "a",
        vec![(qbe::Type::Long, qbe::DataItem::Symbol("s".to_string(), None))],
    ));
    expected.add_data(private("str.4", text_of("lit")));
    assert_eq!(to_backend(&module), expected);
    assert_eq!(
        emit(&module),
        "export function w $main() {\n@start\n\
         \tcall $printf(l $s, l 7, d 4612811918334230528, l $str.4, l $n)\n\
         \tret 0\n}\n\
         data $s = { b \"hi\", b 0 }\n\
         data $n = { w 18446744073709551614 }\n\
         data $f = { d 4609434218613702656 }\n\
         data $a = { l $s }\n\
         data $str.4 = { b \"lit\", b 0 }\n"
    );
}

#[test]
fn module_with_several_blocks_and_public_data_is_written() {
    let module = IrModule {
        functions: vec![IrFunction {
            linkage: IrLinkage::Private,
            name: "helper".to_string(),
            arguments: vec![
                (IrType::Long, IrValue::Temporary("count".to_string())),
                (IrType::Double, IrValue::Temporary("scale".to_string())),
            ],
            return_ty: IrType::Long,
            blocks: vec![
                IrBlock { label: "first".to_string(), instrs: vec![] },
                IrBlock {
                    label: "second".to_string(),
                    instrs: vec![
                        IrInstr::Call(
                            "use".to_string(),
                            vec![(IrType::Long, IrValue::Temporary("count".to_string()))],
                        ),
                        IrInstr::Ret(IrValue::Global("table".to_string())),
                    ],
                },
            ],
        }],
        data: vec![IrData {
            linkage: IrLinkage::Public,
            name: "table".to_string(),
            items: vec![(IrType::Long, IrItem::Const(1)), (IrType::Byte, IrItem::Const(2))],
        }],
    };
    assert_eq!(
        emit(&module),
        "function l $helper(l %count, d %scale) {\n@first\n\n@second\n\
         \tcall $use(l %count)\n\tret $table\n}\n\
         export data $table = { l 1, b 2 }\n"
    );
}

#[test]
fn empty_module_is_written_as_nothing() {
    assert_eq!(emit(&IrModule { functions: vec![], data: vec![] }), "");
}

#[test]
fn compile_text_runs_the_three_stages() {
    assert_eq!(
        compile_text("fn main() { }"),
        Ok("export function w $main() {\n@start\n\tret 0\n}\n".to_string())
    );
    assert_eq!(compile_text(""), Ok(String::new()));
}

#[test]
fn compile_text_gives_the_error_of_the_stage_that_fails() {
    assert_eq!(
        compile_text("\"unterminated"),
        Err(Error::Parse(ParseError { kind: ParseErrorKind::UnexpectedInput, offset: 0 }))
    );
    assert_eq!(
        compile_text("fn main() { x := 9223372036854775808 }"),
        Err(Error::Parse(ParseError { kind: ParseErrorKind::NumberOutOfRange, offset: 17 }))
    );
    assert_eq!(
        compile_text("fn main() { x }"),
        Err(Error::Unsupported(UnsupportedConstruct {
            kind: NodeKind::Constant,
            place: Place::Body,
        }))
    );
}

#[test]
fn two_runs_on_one_text_agree() {
    let text = "fn main() { name := \"World\" printf(name, 1, +2.0, \"x\") }\nfn other() { }";
    let first_tree = parse_ast(text).unwrap();
    let second_tree = parse_ast(text).unwrap();
    assert_eq!(first_tree, second_tree);
    let first_module = compile(&first_tree).unwrap();
    let second_module = compile(&second_tree).unwrap();
    assert_eq!(first_module, second_module);
    assert_eq!(emit(&first_module), emit(&second_module));
    assert_eq!(emit(&first_module).as_bytes(), compile_text(text).unwrap().as_bytes());
}

#[test]
fn command_words_are_read() {
    assert_eq!(command("check"), Ok(Command::Check));
    assert_eq!(command("compile"), Ok(Command::Compile));
    assert_eq!(command("run"), Ok(Command::Run));
}

#[test]
fn other_words_are_no_commands() {
    assert_eq!(command("build"), Err("Invalid command: build".to_string()));
    assert_eq!(command(""), Err("Invalid command: ".to_string()));
    assert_eq!(command("Check"), Err("Invalid command: Check".to_string()));
    assert_eq!(command("run "), Err("Invalid command: run ".to_string()));
}

#[test]
fn build_files_are_named_after_the_stem() {
    assert_eq!(
        artifacts("hello"),
        Artifacts {
            module: "build/hello.ssa".to_string(),
            assembly: "build/hello.s".to_string(),
            executable: "build/hello".to_string(),
        }
    );
    assert_eq!(artifacts("").module, "build/.ssa");
}

#[test]
fn errors_are_written_in_words() {
    assert_eq!(
        ParseError { kind: ParseErrorKind::UnexpectedInput, offset: 0 }.message(),
        "Failed to parse file: unexpected input at byte 0"
    );
    assert_eq!(
        ParseError { kind: ParseErrorKind::NumberOutOfRange, offset: 1234 }.message(),
        "Failed to parse file: number out of range at byte 1234"
    );
    assert_eq!(
        UnsupportedConstruct { kind: NodeKind::Constant, place: Place::TopLevel }.message(),
        "Unsupported construct: constant outside a function"
    );
    assert_eq!(
        UnsupportedConstruct { kind: NodeKind::Function, place: Place::Body }.message(),
        "Unsupported construct: function in a function body"
    );
    assert_eq!(
        UnsupportedConstruct { kind: NodeKind::Call, place: Place::Argument }.message(),
        "Unsupported construct: call among the arguments of a call"
    );
    assert_eq!(
        UnsupportedConstruct { kind: NodeKind::Declare, place: Place::TopLevel }.message(),
        "Unsupported construct: declaration outside a function"
    );
}

#[test]
fn error_of_a_run_is_that_of_its_stage() {
    assert_eq!(
        compile_text("x := -1.5").unwrap_err().message(),
        "Failed to parse file: unexpected input at byte 7"
    );
    assert_eq!(
        compile_text("x := 1").unwrap_err().message(),
        "Unsupported construct: declaration outside a function"
    );
}
