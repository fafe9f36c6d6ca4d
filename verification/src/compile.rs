//! Lowering: from the syntax tree to the backend module, in one forward pass.
//!
//! Every binding is a global of the module, also when it is declared inside a
//! function body. A call may name a global that no declaration has made yet:
//! lowering does not check that a referenced name is defined, so such a
//! reference stays unresolved until the module is linked.

use crate::ast::{views, Atom, AtomView, Expr, ExprView};
use crate::ir::{
    byte_image_of, data_views, function_views, instr_views, item_views, operand_views, IrBlock,
    IrBlockView, IrData, IrDataView, IrFunction, IrFunctionView, IrInstr, IrInstrView, IrItem,
    IrItemView, IrLinkage, IrModule, IrModuleView, IrType, IrValue, IrValueView,
};
use crate::number::{decimal, decimal_text};
use vstd::prelude::*;
use vstd::string::StringExecFns;
use vstd::utf8::encode_utf8;

verus! {

/// The kind of a node of the syntax tree.
#[derive(Clone, Copy, Debug, PartialEq, Eq)]
pub enum NodeKind {
    Constant,
    Declare,
    Call,
    Function,
}

/// Where in a program a node stands.
#[derive(Clone, Copy, Debug, PartialEq, Eq)]
pub enum Place {
    /// Directly in the program.
    TopLevel,
    /// Directly in the body of a function.
    Body,
    /// Among the arguments of a call.
    Argument,
}

impl NodeKind {
    /// The kind in words.
    pub open spec fn words(self) -> Seq<char> {
        match self {
            NodeKind::Constant => "constant"@,
            NodeKind::Declare => "declaration"@,
            NodeKind::Call => "call"@,
            NodeKind::Function => "function"@,
        }
    }
}

impl Place {
    /// The place in words.
    pub open spec fn words(self) -> Seq<char> {
        match self {
            Place::TopLevel => "outside a function"@,
            Place::Body => "in a function body"@,
            Place::Argument => "among the arguments of a call"@,
        }
    }
}

/// A node that lowering has no rule for at the place where it stands.
#[derive(Clone, Copy, Debug, PartialEq, Eq)]
pub struct UnsupportedConstruct {
    pub kind: NodeKind,
    pub place: Place,
}

impl UnsupportedConstruct {
    /// The node in words: `Unsupported construct: `, the kind, a space and
    /// the place.
    pub open spec fn words(self) -> Seq<char> {
        "Unsupported construct: "@ + self.kind.words() + " "@ + self.place.words()
    }

    /// Writes the node in words.
    pub fn message(&self) -> (r: String)
        ensures
            r@ == self.words(),
    {
        let kind = match self.kind {
            NodeKind::Constant => "constant",
            NodeKind::Declare => "declaration",
            NodeKind::Call => "call",
            NodeKind::Function => "function",
        };
        let place = match self.place {
            Place::TopLevel => "outside a function",
            Place::Body => "in a function body",
            Place::Argument => "among the arguments of a call",
        };
        String::from_str("Unsupported construct: ").concat(kind).concat(" ").concat(place)
    }
}

/// The kind of a node.
pub open spec fn kind_of(node: ExprView) -> NodeKind {
    match node {
        ExprView::Constant(_) => NodeKind::Constant,
        ExprView::Declare { .. } => NodeKind::Declare,
        ExprView::Call { .. } => NodeKind::Call,
        ExprView::Function { .. } => NodeKind::Function,
    }
}

/// The bit pattern of a number: the number itself where it is not negative,
/// and its two's complement where it is.
pub open spec fn pattern(n: i64) -> u64 {
    n as u64
}

/// The items that hold a text: its bytes, then one zero byte.
pub open spec fn text_items(raw: Seq<char>) -> Seq<(IrType, IrItemView)> {
    seq![(IrType::Byte, IrItemView::Str(raw)), (IrType::Byte, IrItemView::Const(0))]
}

/// The items of the data definition that binds `value`: a text as its bytes
/// and a zero byte, a number as a word, a float as a double, a symbol as the
/// address of the global that it names.
pub open spec fn data_items(value: AtomView) -> Seq<(IrType, IrItemView)> {
    match value {
        AtomView::Symbol(name) => seq![(IrType::Long, IrItemView::Symbol(name))],
        AtomView::String(raw) => text_items(raw),
        AtomView::Number(n) => seq![(IrType::Word, IrItemView::Const(pattern(n)))],
        AtomView::Float(bits) => seq![(IrType::Double, IrItemView::Const(bits))],
    }
}

/// The private data definition that a declaration of `name` makes.
pub open spec fn declared(name: Seq<char>, value: AtomView) -> IrDataView {
    IrDataView { linkage: IrLinkage::Private, name, items: data_items(value) }
}

/// The name of the data definition that holds a text written as an argument:
/// `str.` and the number of data definitions that the module held before it.
/// No identifier of the source text has a dot in it.
pub open spec fn literal_name(index: nat) -> Seq<char> {
    "str."@ + decimal(index)
}

/// The operand that passes `arg` to a call, and the data definitions after
/// it. A symbol is the address of the global of its name, a number and a
/// float are immediate, and a text is put into a new private data definition
/// whose address is passed.
pub open spec fn operand(arg: ExprView, data: Seq<IrDataView>) -> Result<
    (Seq<IrDataView>, (IrType, IrValueView)),
    UnsupportedConstruct,
> {
    match arg {
        ExprView::Constant(AtomView::Symbol(name)) => Ok(
            (data, (IrType::Long, IrValueView::Global(name))),
        ),
        ExprView::Constant(AtomView::Number(n)) => Ok(
            (data, (IrType::Long, IrValueView::Const(pattern(n)))),
        ),
        ExprView::Constant(AtomView::Float(bits)) => Ok(
            (data, (IrType::Double, IrValueView::Const(bits))),
        ),
        ExprView::Constant(AtomView::String(raw)) => {
            let name = literal_name(data.len());
            let def = IrDataView { linkage: IrLinkage::Private, name, items: text_items(raw) };
            Ok((data.push(def), (IrType::Long, IrValueView::Global(name))))
        },
        _ => Err(UnsupportedConstruct { kind: kind_of(arg), place: Place::Argument }),
    }
}

/// The operands of the arguments of a call, left to right, and the data
/// definitions after them; or the first argument that has no operand.
pub open spec fn operands(args: Seq<ExprView>, data: Seq<IrDataView>) -> Result<
    (Seq<IrDataView>, Seq<(IrType, IrValueView)>),
    UnsupportedConstruct,
>
    decreases args.len(),
{
    if args.len() == 0 {
        Ok((data, Seq::empty()))
    } else {
        match operands(args.drop_last(), data) {
            Ok((before, firsts)) => match operand(args.last(), before) {
                Ok((after, last)) => Ok((after, firsts.push(last))),
                Err(e) => Err(e),
            },
            Err(e) => Err(e),
        }
    }
}

/// The data definitions and the instructions of the current block after one
/// statement of a function body. A declaration adds a data definition, a call
/// adds what its arguments need and then the call instruction.
pub open spec fn lowered_statement(
    statement: ExprView,
    data: Seq<IrDataView>,
    instrs: Seq<IrInstrView>,
) -> Result<(Seq<IrDataView>, Seq<IrInstrView>), UnsupportedConstruct> {
    match statement {
        ExprView::Declare { name, value } => Ok((data.push(declared(name, value)), instrs)),
        ExprView::Call { name, args } => match operands(args, data) {
            Ok((after, passed)) => Ok((after, instrs.push(IrInstrView::Call(name, passed)))),
            Err(e) => Err(e),
        },
        _ => Err(UnsupportedConstruct { kind: kind_of(statement), place: Place::Body }),
    }
}

/// The data definitions and the instructions after the statements of a body,
/// top to bottom; or the first node in it that lowering has no rule for.
pub open spec fn lowered_statements(
    statements: Seq<ExprView>,
    data: Seq<IrDataView>,
    instrs: Seq<IrInstrView>,
) -> Result<(Seq<IrDataView>, Seq<IrInstrView>), UnsupportedConstruct>
    decreases statements.len(),
{
    if statements.len() == 0 {
        Ok((data, instrs))
    } else {
        match lowered_statements(statements.drop_last(), data, instrs) {
            Ok((before, done)) => lowered_statement(statements.last(), before, done),
            Err(e) => Err(e),
        }
    }
}

/// The instruction that ends every function: return the constant zero.
pub open spec fn return_zero() -> IrInstrView {
    IrInstrView::Ret(IrValueView::Const(0))
}

/// The public function that a function node becomes, and the data
/// definitions after it. It takes no parameters, whatever parameters the
/// node has; it returns a word, and has the one block `start`: the
/// instructions of its body, then `return_zero`.
pub open spec fn lowered_function(
    name: Seq<char>,
    body: Seq<ExprView>,
    data: Seq<IrDataView>,
) -> Result<(Seq<IrDataView>, IrFunctionView), UnsupportedConstruct> {
    match lowered_statements(body, data, Seq::empty()) {
        Ok((after, instrs)) => Ok(
            (
                after,
                IrFunctionView {
                    linkage: IrLinkage::Public,
                    name,
                    arguments: Seq::empty(),
                    return_ty: IrType::Word,
                    blocks: seq![
                        IrBlockView { label: "start"@, instrs: instrs.push(return_zero()) },
                    ],
                },
            ),
        ),
        Err(e) => Err(e),
    }
}

/// The module after one node of the program: a function node adds its
/// function and the data definitions of its body.
pub open spec fn lowered_node(node: ExprView, module: IrModuleView) -> Result<
    IrModuleView,
    UnsupportedConstruct,
> {
    match node {
        ExprView::Function { name, args, body } => match lowered_function(name, body, module.data) {
            Ok((data, function)) => Ok(
                IrModuleView { functions: module.functions.push(function), data },
            ),
            Err(e) => Err(e),
        },
        _ => Err(UnsupportedConstruct { kind: kind_of(node), place: Place::TopLevel }),
    }
}

/// The module of a program: its nodes lowered in order, starting from the
/// empty module; or the first node that lowering has no rule for.
pub open spec fn lowered(program: Seq<ExprView>) -> Result<IrModuleView, UnsupportedConstruct>
    decreases program.len(),
{
    if program.len() == 0 {
        Ok(IrModuleView { functions: Seq::empty(), data: Seq::empty() })
    } else {
        match lowered(program.drop_last()) {
            Ok(module) => lowered_node(program.last(), module),
            Err(e) => Err(e),
        }
    }
}

/// An argument that fails makes every longer list of arguments fail alike.
proof fn lemma_operands_fail(args: Seq<ExprView>, data: Seq<IrDataView>, k: int)
    requires
        0 <= k <= args.len(),
        operands(args.take(k), data) is Err,
    ensures
        operands(args, data) == operands(args.take(k), data),
    decreases args.len(),
{
    if k < args.len() {
        assert(args.drop_last().take(k) =~= args.take(k));
        lemma_operands_fail(args.drop_last(), data, k);
    } else {
        assert(args.take(k) =~= args);
    }
}

/// A statement that fails makes every longer body fail alike.
proof fn lemma_statements_fail(
    statements: Seq<ExprView>,
    data: Seq<IrDataView>,
    instrs: Seq<IrInstrView>,
    k: int,
)
    requires
        0 <= k <= statements.len(),
        lowered_statements(statements.take(k), data, instrs) is Err,
    ensures
        lowered_statements(statements, data, instrs) == lowered_statements(
            statements.take(k),
            data,
            instrs,
        ),
    decreases statements.len(),
{
    if k < statements.len() {
        assert(statements.drop_last().take(k) =~= statements.take(k));
        lemma_statements_fail(statements.drop_last(), data, instrs, k);
    } else {
        assert(statements.take(k) =~= statements);
    }
}

/// A node that fails makes every longer program fail alike.
proof fn lemma_lowered_fail(program: Seq<ExprView>, k: int)
    requires
        0 <= k <= program.len(),
        lowered(program.take(k)) is Err,
    ensures
        lowered(program) == lowered(program.take(k)),
    decreases program.len(),
{
    if k < program.len() {
        assert(program.drop_last().take(k) =~= program.take(k));
        lemma_lowered_fail(program.drop_last(), k);
    } else {
        assert(program.take(k) =~= program);
    }
}

/// The bit pattern of a number that is not negative is the number, and that
/// of a negative number is the number plus 2^64.
pub proof fn lemma_pattern_is_twos_complement(n: i64)
    ensures
        n >= 0 ==> pattern(n) == n,
        n < 0 ==> pattern(n) == n + 0x1_0000_0000_0000_0000,
{
    assert(n >= 0 ==> n as u64 == n) by (bit_vector);
    assert(n < 0 ==> n as u64 == n + 0x1_0000_0000_0000_0000) by (bit_vector);
}

/// A declaration of a text makes one private data definition under the
/// declared name, and nothing else. The definition lays out the bytes of the
/// text and then one zero byte: a text of N bytes gives N + 1 bytes, the last
/// of them zero.
pub proof fn lemma_declared_text_is_zero_terminated(
    name: Seq<char>,
    raw: Seq<char>,
    data: Seq<IrDataView>,
    instrs: Seq<IrInstrView>,
)
    ensures
        lowered_statement(
            ExprView::Declare { name, value: AtomView::String(raw) },
            data,
            instrs,
        ) == Ok::<_, UnsupportedConstruct>(
            (data.push(declared(name, AtomView::String(raw))), instrs),
        ),
        declared(name, AtomView::String(raw)).linkage == IrLinkage::Private,
        declared(name, AtomView::String(raw)).name == name,
        declared(name, AtomView::String(raw)).byte_image() == Some(encode_utf8(raw).push(0)),
        declared(name, AtomView::String(raw)).byte_image().unwrap().len() == encode_utf8(raw).len()
            + 1,
        declared(name, AtomView::String(raw)).byte_image().unwrap().last() == 0,
{
    let items = text_items(raw);
    assert(items.skip(1).skip(1) =~= Seq::<(IrType, IrItemView)>::empty());
    assert(byte_image_of(items.skip(1).skip(1)) == Some(Seq::<u8>::empty()));
    assert(byte_image_of(items.skip(1)) == Some(seq![0u8] + Seq::<u8>::empty()));
    assert(seq![0u8] + Seq::<u8>::empty() =~= seq![0u8]);
    assert(byte_image_of(items) == Some(encode_utf8(raw) + seq![0u8]));
    assert(encode_utf8(raw) + seq![0u8] =~= encode_utf8(raw).push(0));
}

/// Whether a function is what lowering makes of a function node: public,
/// without parameters, returning a word, with the one block `start` that
/// ends in the return of the constant zero.
pub open spec fn returns_zero(function: IrFunctionView) -> bool {
    &&& function.linkage == IrLinkage::Public
    &&& function.arguments.len() == 0
    &&& function.return_ty == IrType::Word
    &&& function.blocks.len() == 1
    &&& function.blocks[0].label == "start"@
    &&& function.blocks[0].instrs.len() > 0
    &&& function.blocks[0].instrs.last() == return_zero()
}

/// A program that lowers is made of function nodes only, and its module has
/// one function for each of them, in their order and under their names.
/// Whatever the body of a function holds, the function ends in the return of
/// the constant zero.
pub proof fn lemma_every_function_returns_zero(program: Seq<ExprView>)
    requires
        lowered(program) is Ok,
    ensures
        lowered(program).unwrap().functions.len() == program.len(),
        forall|i: int|
            0 <= i < program.len() ==> (#[trigger] program[i]) is Function && lowered(
                program,
            ).unwrap().functions[i].name == program[i]->Function_name && returns_zero(
                lowered(program).unwrap().functions[i],
            ),
    decreases program.len(),
{
    if program.len() > 0 {
        lemma_every_function_returns_zero(program.drop_last());
        let before = lowered(program.drop_last()).unwrap();
        let after = lowered(program).unwrap();
        assert forall|i: int| 0 <= i < program.len() implies (#[trigger] program[i]) is Function
            && after.functions[i].name == program[i]->Function_name && returns_zero(
            after.functions[i],
        ) by {
            if i < program.len() - 1 {
                assert(program[i] == program.drop_last()[i]);
                assert(after.functions[i] == before.functions[i]);
            }
        }
    }
}

/// Tells the kind of a node.
pub fn node_kind(node: &Expr) -> (kind: NodeKind)
    ensures
        kind == kind_of(node@),
{
    match node {
        Expr::Constant(_) => NodeKind::Constant,
        Expr::Declare { .. } => NodeKind::Declare,
        Expr::Call { .. } => NodeKind::Call,
        Expr::Function { .. } => NodeKind::Function,
    }
}

/// Computes the bit pattern of a number.
fn number_pattern(n: i64) -> (bits: u64)
    ensures
        bits == pattern(n),
{
    #[verifier::truncate]
    (n as u64)
}

/// Makes the items that hold a text.
fn make_text_items(raw: &String) -> (items: Vec<(IrType, IrItem)>)
    ensures
        item_views(items@) == text_items(raw@),
{
    let mut items: Vec<(IrType, IrItem)> = Vec::new();
    items.push((IrType::Byte, IrItem::Str(raw.clone())));
    items.push((IrType::Byte, IrItem::Const(0)));
    assert(item_views(items@) =~= text_items(raw@));
    items
}

/// Makes the items of the data definition that binds `value`.
fn make_data_items(value: &Atom) -> (items: Vec<(IrType, IrItem)>)
    ensures
        item_views(items@) == data_items(value@),
{
    match value {
        Atom::String(raw) => make_text_items(raw),
        Atom::Symbol(name) => {
            let mut items: Vec<(IrType, IrItem)> = Vec::new();
            items.push((IrType::Long, IrItem::Symbol(name.clone())));
            assert(item_views(items@) =~= data_items(value@));
            items
        },
        Atom::Number(n) => {
            let mut items: Vec<(IrType, IrItem)> = Vec::new();
            items.push((IrType::Word, IrItem::Const(number_pattern(*n))));
            assert(item_views(items@) =~= data_items(value@));
            items
        },
        Atom::Float(bits) => {
            let mut items: Vec<(IrType, IrItem)> = Vec::new();
            items.push((IrType::Double, IrItem::Const(*bits)));
            assert(item_views(items@) =~= data_items(value@));
            items
        },
    }
}

/// Lowers one argument of a call: appends to `data` what the argument needs
/// and gives the operand that passes it.
fn lower_operand(arg: &Expr, data: &mut Vec<IrData>) -> (r: Result<
    (IrType, IrValue),
    UnsupportedConstruct,
>)
    ensures
        match r {
            Ok(passed) => operand(arg@, data_views(old(data)@)) == Ok::<_, UnsupportedConstruct>(
                (data_views(final(data)@), (passed.0, passed.1@)),
            ),
            Err(e) => operand(arg@, data_views(old(data)@)) == Err::<
                (Seq<IrDataView>, (IrType, IrValueView)),
                _,
            >(e),
        },
{
    match arg {
        Expr::Constant(Atom::Symbol(name)) => {
            assert(data_views(data@) =~= data_views(old(data)@));
            Ok((IrType::Long, IrValue::Global(name.clone())))
        },
        Expr::Constant(Atom::Number(n)) => Ok((IrType::Long, IrValue::Const(number_pattern(*n)))),
        Expr::Constant(Atom::Float(bits)) => Ok((IrType::Double, IrValue::Const(*bits))),
        Expr::Constant(Atom::String(raw)) => {
            let name = String::from_str("str.").concat(decimal_text(data.len()).as_str());
            let def = IrData {
                linkage: IrLinkage::Private,
                name: name.clone(),
                items: make_text_items(raw),
            };
            data.push(def);
            assert(data_views(data@) =~= data_views(old(data)@).push(def@));
            Ok((IrType::Long, IrValue::Global(name)))
        },
        _ => Err(UnsupportedConstruct { kind: node_kind(arg), place: Place::Argument }),
    }
}

/// Lowers the arguments of a call, left to right.
fn lower_operands(args: &Vec<Expr>, data: &mut Vec<IrData>) -> (r: Result<
    Vec<(IrType, IrValue)>,
    UnsupportedConstruct,
>)
    ensures
        match r {
            Ok(passed) => operands(views(args@), data_views(old(data)@)) == Ok::<
                _,
                UnsupportedConstruct,
            >((data_views(final(data)@), operand_views(passed@))),
            Err(e) => operands(views(args@), data_views(old(data)@)) == Err::<
                (Seq<IrDataView>, Seq<(IrType, IrValueView)>),
                _,
            >(e),
        },
{
    let mut passed: Vec<(IrType, IrValue)> = Vec::new();
    let ghost all = views(args@);
    let ghost start = data_views(data@);
    assert(operand_views(passed@) =~= Seq::<(IrType, IrValueView)>::empty());
    for i in 0..args.len()
        invariant
            all == views(args@),
            start == data_views(old(data)@),
            operands(all.take(i as int), start) == Ok::<_, UnsupportedConstruct>(
                (data_views(data@), operand_views(passed@)),
            ),
    {
        let ghost before = data_views(data@);
        let ghost firsts = operand_views(passed@);
        assert(all.take(i + 1).drop_last() =~= all.take(i as int));
        assert(all.take(i + 1).last() == args@[i as int]@);
        match lower_operand(&args[i], data) {
            Ok(one) => {
                passed.push(one);
                assert(operand_views(passed@) =~= firsts.push((one.0, one.1@)));
            },
            Err(e) => {
                proof {
                    lemma_operands_fail(all, start, i + 1);
                }
                return Err(e);
            },
        }
    }
    assert(all.take(args.len() as int) =~= all);
    Ok(passed)
}

/// Lowers one statement of a function body.
fn lower_statement(statement: &Expr, data: &mut Vec<IrData>, instrs: &mut Vec<IrInstr>) -> (r:
    Result<(), UnsupportedConstruct>)
    ensures
        match r {
            Ok(_) => lowered_statement(
                statement@,
                data_views(old(data)@),
                instr_views(old(instrs)@),
            ) == Ok::<_, UnsupportedConstruct>(
                (data_views(final(data)@), instr_views(final(instrs)@)),
            ),
            Err(e) => lowered_statement(
                statement@,
                data_views(old(data)@),
                instr_views(old(instrs)@),
            ) == Err::<(Seq<IrDataView>, Seq<IrInstrView>), _>(e),
        },
{
    match statement {
        Expr::Declare { name, value } => {
            let def = IrData {
                linkage: IrLinkage::Private,
                name: name.clone(),
                items: make_data_items(value),
            };
            data.push(def);
            assert(data_views(data@) =~= data_views(old(data)@).push(declared(name@, value@)));
            assert(instr_views(instrs@) =~= instr_views(old(instrs)@));
            Ok(())
        },
        Expr::Call { name, args } => {
            match lower_operands(args, data) {
                Ok(passed) => {
                    let call = IrInstr::Call(name.clone(), passed);
                    instrs.push(call);
                    assert(instr_views(instrs@) =~= instr_views(old(instrs)@).push(call@));
                    Ok(())
                },
                Err(e) => Err(e),
            }
        },
        _ => Err(UnsupportedConstruct { kind: node_kind(statement), place: Place::Body }),
    }
}

/// Lowers a function node: appends to `data` what its body declares and gives
/// the function.
fn lower_function(name: &String, body: &Vec<Expr>, data: &mut Vec<IrData>) -> (r: Result<
    IrFunction,
    UnsupportedConstruct,
>)
    ensures
        match r {
            Ok(function) => lowered_function(name@, views(body@), data_views(old(data)@)) == Ok::<
                _,
                UnsupportedConstruct,
            >((data_views(final(data)@), function@)),
            Err(e) => lowered_function(name@, views(body@), data_views(old(data)@)) == Err::<
                (Seq<IrDataView>, IrFunctionView),
                _,
            >(e),
        },
{
    let mut instrs: Vec<IrInstr> = Vec::new();
    let ghost all = views(body@);
    let ghost start = data_views(data@);
    assert(instr_views(instrs@) =~= Seq::<IrInstrView>::empty());
    for i in 0..body.len()
        invariant
            all == views(body@),
            start == data_views(old(data)@),
            lowered_statements(all.take(i as int), start, Seq::empty()) == Ok::<
                _,
                UnsupportedConstruct,
            >((data_views(data@), instr_views(instrs@))),
    {
        assert(all.take(i + 1).drop_last() =~= all.take(i as int));
        assert(all.take(i + 1).last() == body@[i as int]@);
        match lower_statement(&body[i], data, &mut instrs) {
            Ok(_) => {},
            Err(e) => {
                proof {
                    lemma_statements_fail(all, start, Seq::empty(), i + 1);
                }
                return Err(e);
            },
        }
    }
    assert(all.take(body.len() as int) =~= all);
    let ghost done = instr_views(instrs@);
    let ret = IrInstr::Ret(IrValue::Const(0));
    instrs.push(ret);
    assert(instr_views(instrs@) =~= done.push(return_zero()));
    let mut blocks: Vec<IrBlock> = Vec::new();
    let block = IrBlock { label: String::from_str("start"), instrs };
    blocks.push(block);
    let arguments: Vec<(IrType, IrValue)> = Vec::new();
    assert(operand_views(arguments@) =~= Seq::<(IrType, IrValueView)>::empty());
    let function = IrFunction {
        linkage: IrLinkage::Public,
        name: name.clone(),
        arguments,
        return_ty: IrType::Word,
        blocks,
    };
    assert(function@.blocks =~= seq![block@]);
    Ok(function)
}

/// Lowers a program to its module.
///
/// Every function node becomes a public function that ends by returning
/// zero; every declaration in a body becomes a private data definition of the
/// module. A node without a rule ends lowering with that node's kind and
/// place, and no module is given.
pub fn compile(ast: &[Expr]) -> (r: Result<IrModule, UnsupportedConstruct>)
    ensures
        match r {
            Ok(module) => lowered(views(ast@)) == Ok::<_, UnsupportedConstruct>(module@),
            Err(e) => lowered(views(ast@)) == Err::<IrModuleView, _>(e),
        },
{
    let mut functions: Vec<IrFunction> = Vec::new();
    let mut data: Vec<IrData> = Vec::new();
    let ghost all = views(ast@);
    assert(function_views(functions@) =~= Seq::<IrFunctionView>::empty());
    assert(data_views(data@) =~= Seq::<IrDataView>::empty());
    for i in 0..ast.len()
        invariant
            all == views(ast@),
            lowered(all.take(i as int)) == Ok::<_, UnsupportedConstruct>(
                IrModuleView { functions: function_views(functions@), data: data_views(data@) },
            ),
    {
        let ghost made = function_views(functions@);
        assert(all.take(i + 1).drop_last() =~= all.take(i as int));
        assert(all.take(i + 1).last() == ast@[i as int]@);
        match &ast[i] {
            Expr::Function { name, args: _, body } => {
                match lower_function(name, body, &mut data) {
                    Ok(function) => {
                        functions.push(function);
                        assert(function_views(functions@) =~= made.push(function@));
                    },
                    Err(e) => {
                        proof {
                            lemma_lowered_fail(all, i + 1);
                        }
                        return Err(e);
                    },
                }
            },
            other => {
                proof {
                    lemma_lowered_fail(all, i + 1);
                }
                return Err(UnsupportedConstruct { kind: node_kind(other), place: Place::TopLevel });
            },
        }
    }
    assert(all.take(ast.len() as int) =~= all);
    Ok(IrModule { functions, data })
}

} // verus!
