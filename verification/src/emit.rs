//! Handing a module to the `qbe` crate, and its text.
//!
//! The values of `qbe` are opaque here. Each has a model: the value of this
//! library that it stands for, where there is one. Everything below the
//! models is taken on trust from the source of `qbe`; the functions that
//! walk a module are proved against it.

use crate::ir::{
    block_views, data_views, function_views, instr_views, item_views, operand_views, IrBlockView,
    IrData, IrDataView, IrFunction, IrFunctionView, IrInstr, IrInstrView, IrItem, IrItemView,
    IrLinkage, IrModule, IrModuleView, IrType, IrValue, IrValueView,
};
use vstd::prelude::*;

verus! {

/// `qbe::Type`, of which nothing is known here but its model.
#[verifier::external_type_specification]
#[verifier::external_body]
pub struct ExType(qbe::Type);

/// `qbe::Linkage`, of which nothing is known here but its model.
#[verifier::external_type_specification]
#[verifier::external_body]
pub struct ExLinkage(qbe::Linkage);

/// `qbe::Value`, of which nothing is known here but its model.
#[verifier::external_type_specification]
#[verifier::external_body]
pub struct ExValue(qbe::Value);

/// `qbe::DataItem`, of which nothing is known here but its model.
#[verifier::external_type_specification]
#[verifier::external_body]
pub struct ExDataItem(qbe::DataItem);

/// `qbe::Instr`, of which nothing is known here but its model.
#[verifier::external_type_specification]
#[verifier::external_body]
pub struct ExInstr(qbe::Instr);

/// `qbe::DataDef`, of which nothing is known here but its model.
#[verifier::external_type_specification]
#[verifier::external_body]
pub struct ExDataDef(qbe::DataDef);

/// `qbe::Function`, of which nothing is known here but its model.
#[verifier::external_type_specification]
#[verifier::external_body]
pub struct ExFunction(qbe::Function);

/// `qbe::Module`, of which nothing is known here but its model.
#[verifier::external_type_specification]
#[verifier::external_body]
pub struct ExModule(qbe::Module);

/// The type that a `qbe::Type` stands for: `Byte`, `Word`, `Long` and
/// `Double` stand for the types of the same names, the others for none.
pub uninterp spec fn type_model(ty: qbe::Type) -> Option<IrType>;

/// The linkage that a `qbe::Linkage` stands for: what
/// `qbe::Linkage::private()` gives stands for `Private`, what
/// `qbe::Linkage::public()` gives for `Public`, and a linkage with a section
/// or in thread-local storage for none.
pub uninterp spec fn linkage_model(linkage: qbe::Linkage) -> Option<IrLinkage>;

/// The operand that a `qbe::Value` stands for: a `Temporary`, a `Global`
/// and a `Const` stand for the operands of the same names.
pub uninterp spec fn value_model(value: qbe::Value) -> Option<IrValueView>;

/// The data item that a `qbe::DataItem` stands for: a `Symbol` without
/// offset, a `Str` and a `Const` stand for the items of the same names, the
/// others for none.
pub uninterp spec fn item_model(item: qbe::DataItem) -> Option<IrItemView>;

/// The instruction that a `qbe::Instr` stands for: a `Call` that is not
/// variadic and a `Ret` with a value, where their operands stand for
/// operands; the others for none.
pub uninterp spec fn instr_model(instr: qbe::Instr) -> Option<IrInstrView>;

/// The data definition that a `qbe::DataDef` stands for, where it has no
/// alignment and its linkage and items stand for some.
pub uninterp spec fn data_model(def: qbe::DataDef) -> Option<IrDataView>;

/// The function that a `qbe::Function` stands for, where it has a return
/// type, its linkage, arguments and return type stand for some, and its
/// blocks hold nothing but instructions that stand for some, none of them
/// assigned to a temporary.
pub uninterp spec fn function_model(function: qbe::Function) -> Option<IrFunctionView>;

/// The module that a `qbe::Module` stands for, where it has no type
/// definitions and its functions and data definitions stand for some.
pub uninterp spec fn module_model(module: qbe::Module) -> Option<IrModuleView>;

/// The text that `qbe` writes for a module that stands for `module`.
pub uninterp spec fn module_text(module: IrModuleView) -> Seq<char>;

/// Whether every type and operand of `args` stands for one.
pub open spec fn operands_modelled(args: Seq<(qbe::Type, qbe::Value)>) -> bool {
    forall|i: int|
        0 <= i < args.len() ==> type_model((#[trigger] args[i]).0) is Some && value_model(
            args[i].1,
        ) is Some
}

/// The typed operands that `args` stands for.
pub open spec fn operands_model(args: Seq<(qbe::Type, qbe::Value)>) -> Seq<(IrType, IrValueView)> {
    Seq::new(args.len(), |i: int| (type_model(args[i].0).unwrap(), value_model(args[i].1).unwrap()))
}

/// Whether every type and item of `items` stands for one.
pub open spec fn items_modelled(items: Seq<(qbe::Type, qbe::DataItem)>) -> bool {
    forall|i: int|
        0 <= i < items.len() ==> type_model((#[trigger] items[i]).0) is Some && item_model(
            items[i].1,
        ) is Some
}

/// The typed data items that `items` stands for.
pub open spec fn items_model(items: Seq<(qbe::Type, qbe::DataItem)>) -> Seq<(IrType, IrItemView)> {
    Seq::new(
        items.len(),
        |i: int| (type_model(items[i].0).unwrap(), item_model(items[i].1).unwrap()),
    )
}

/// `qbe::Type::Byte`, which stands for `IrType::Byte`.
#[verifier::external_body]
fn byte_type() -> (ty: qbe::Type)
    ensures
        type_model(ty) == Some(IrType::Byte),
{
    qbe::Type::Byte
}

/// `qbe::Type::Word`, which stands for `IrType::Word`.
#[verifier::external_body]
fn word_type() -> (ty: qbe::Type)
    ensures
        type_model(ty) == Some(IrType::Word),
{
    qbe::Type::Word
}

/// `qbe::Type::Long`, which stands for `IrType::Long`.
#[verifier::external_body]
fn long_type() -> (ty: qbe::Type)
    ensures
        type_model(ty) == Some(IrType::Long),
{
    qbe::Type::Long
}

/// `qbe::Type::Double`, which stands for `IrType::Double`.
#[verifier::external_body]
fn double_type() -> (ty: qbe::Type)
    ensures
        type_model(ty) == Some(IrType::Double),
{
    qbe::Type::Double
}

/// `qbe::Linkage::private()`, which stands for `IrLinkage::Private`.
#[verifier::external_body]
fn private_linkage() -> (linkage: qbe::Linkage)
    ensures
        linkage_model(linkage) == Some(IrLinkage::Private),
{
    qbe::Linkage::private()
}

/// `qbe::Linkage::public()`, which stands for `IrLinkage::Public`.
#[verifier::external_body]
fn public_linkage() -> (linkage: qbe::Linkage)
    ensures
        linkage_model(linkage) == Some(IrLinkage::Public),
{
    qbe::Linkage::public()
}

/// `qbe::Value::Temporary` of a copy of `name`, which stands for the
/// temporary of that name.
#[verifier::external_body]
fn temporary_value(name: &str) -> (value: qbe::Value)
    ensures
        value_model(value) == Some(IrValueView::Temporary(name@)),
{
    qbe::Value::Temporary(name.to_string())
}

/// `qbe::Value::Global` of a copy of `name`, which stands for the global of
/// that name.
#[verifier::external_body]
fn global_value(name: &str) -> (value: qbe::Value)
    ensures
        value_model(value) == Some(IrValueView::Global(name@)),
{
    qbe::Value::Global(name.to_string())
}

/// `qbe::Value::Const` of `bits`, which stands for that constant.
#[verifier::external_body]
fn const_value(bits: u64) -> (value: qbe::Value)
    ensures
        value_model(value) == Some(IrValueView::Const(bits)),
{
    qbe::Value::Const(bits)
}

/// `qbe::DataItem::Symbol` of a copy of `name`, without offset, which stands
/// for the address of the global of that name.
#[verifier::external_body]
fn symbol_item(name: &str) -> (item: qbe::DataItem)
    ensures
        item_model(item) == Some(IrItemView::Symbol(name@)),
{
    qbe::DataItem::Symbol(name.to_string(), None)
}

/// `qbe::DataItem::Str` of a copy of `raw`, which stands for that text.
#[verifier::external_body]
fn str_item(raw: &str) -> (item: qbe::DataItem)
    ensures
        item_model(item) == Some(IrItemView::Str(raw@)),
{
    qbe::DataItem::Str(raw.to_string())
}

/// `qbe::DataItem::Const` of `bits`, which stands for that constant.
#[verifier::external_body]
fn const_item(bits: u64) -> (item: qbe::DataItem)
    ensures
        item_model(item) == Some(IrItemView::Const(bits)),
{
    qbe::DataItem::Const(bits)
}

/// `qbe::Instr::Call` of a copy of `name` and of `args`, not variadic, which
/// stands for the call of that name with what `args` stands for.
#[verifier::external_body]
fn call_instr(name: &str, args: Vec<(qbe::Type, qbe::Value)>) -> (instr: qbe::Instr)
    requires
        operands_modelled(args@),
    ensures
        instr_model(instr) == Some(IrInstrView::Call(name@, operands_model(args@))),
{
    qbe::Instr::Call(name.to_string(), args, None)
}

/// `qbe::Instr::Ret` of `value`, which stands for the return of what `value`
/// stands for.
#[verifier::external_body]
fn ret_instr(value: qbe::Value) -> (instr: qbe::Instr)
    requires
        value_model(value) is Some,
    ensures
        instr_model(instr) == Some(IrInstrView::Ret(value_model(value).unwrap())),
{
    qbe::Instr::Ret(Some(value))
}

/// `qbe::DataDef::new` with `linkage`, a copy of `name`, no alignment and
/// `items`. It stores its arguments, so the result stands for the data
/// definition of what they stand for.
#[verifier::external_body]
fn new_data(linkage: qbe::Linkage, name: &str, items: Vec<(qbe::Type, qbe::DataItem)>) -> (def:
    qbe::DataDef)
    requires
        linkage_model(linkage) is Some,
        items_modelled(items@),
    ensures
        data_model(def) == Some(
            IrDataView {
                linkage: linkage_model(linkage).unwrap(),
                name: name@,
                items: items_model(items@),
            },
        ),
{
    qbe::DataDef::new(linkage, name, None, items)
}

/// `qbe::Function::new` with `linkage`, a copy of `name`, `arguments` and
/// the return type `return_ty`. It stores what it is given and starts
/// without blocks.
#[verifier::external_body]
fn new_function(
    linkage: qbe::Linkage,
    name: &str,
    arguments: Vec<(qbe::Type, qbe::Value)>,
    return_ty: qbe::Type,
) -> (function: qbe::Function)
    requires
        linkage_model(linkage) is Some,
        operands_modelled(arguments@),
        type_model(return_ty) is Some,
    ensures
        function_model(function) == Some(
            IrFunctionView {
                linkage: linkage_model(linkage).unwrap(),
                name: name@,
                arguments: operands_model(arguments@),
                return_ty: type_model(return_ty).unwrap(),
                blocks: Seq::empty(),
            },
        ),
{
    qbe::Function::new(linkage, name, arguments, Some(return_ty))
}

/// `qbe::Function::add_block` with a copy of `label`. It puts an empty block
/// of that label after the blocks of the function.
#[verifier::external_body]
fn add_block(function: &mut qbe::Function, label: &str)
    requires
        function_model(*old(function)) is Some,
    ensures
        function_model(*final(function)) == Some(
            IrFunctionView {
                blocks: function_model(*old(function)).unwrap().blocks.push(
                    IrBlockView { label: label@, instrs: Seq::empty() },
                ),
                ..function_model(*old(function)).unwrap()
            },
        ),
{
    function.add_block(label);
}

/// `qbe::Function::add_instr`. It puts `instr`, not assigned to a temporary,
/// after the instructions of the last block. It panics on a function without
/// blocks, which `requires` leaves out.
#[verifier::external_body]
fn add_instr(function: &mut qbe::Function, instr: qbe::Instr)
    requires
        function_model(*old(function)) is Some,
        function_model(*old(function)).unwrap().blocks.len() > 0,
        instr_model(instr) is Some,
    ensures
        function_model(*final(function)) == Some(
            with_instr(function_model(*old(function)).unwrap(), instr_model(instr).unwrap()),
        ),
{
    function.add_instr(instr);
}

/// `function` with `instr` after the instructions of its last block.
pub open spec fn with_instr(function: IrFunctionView, instr: IrInstrView) -> IrFunctionView {
    let last = function.blocks.last();
    IrFunctionView {
        blocks: function.blocks.drop_last().push(
            IrBlockView { label: last.label, instrs: last.instrs.push(instr) },
        ),
        ..function
    }
}

/// `qbe::Module::new`, which gives a module without functions, data
/// definitions or type definitions.
#[verifier::external_body]
fn new_module() -> (module: qbe::Module)
    ensures
        module_model(module) == Some(IrModuleView { functions: Seq::empty(), data: Seq::empty() }),
{
    qbe::Module::new()
}

/// `qbe::Module::add_function`. It puts `function` after the functions of
/// the module and leaves the rest as it is.
#[verifier::external_body]
fn add_function(module: &mut qbe::Module, function: qbe::Function)
    requires
        module_model(*old(module)) is Some,
        function_model(function) is Some,
    ensures
        module_model(*final(module)) == Some(
            IrModuleView {
                functions: module_model(*old(module)).unwrap().functions.push(
                    function_model(function).unwrap(),
                ),
                ..module_model(*old(module)).unwrap()
            },
        ),
{
    module.add_function(function);
}

/// `qbe::Module::add_data`. It puts `def` after the data definitions of the
/// module and leaves the rest as it is.
#[verifier::external_body]
fn add_data(module: &mut qbe::Module, def: qbe::DataDef)
    requires
        module_model(*old(module)) is Some,
        data_model(def) is Some,
    ensures
        module_model(*final(module)) == Some(
            IrModuleView {
                data: module_model(*old(module)).unwrap().data.push(data_model(def).unwrap()),
                ..module_model(*old(module)).unwrap()
            },
        ),
{
    module.add_data(def);
}

/// `to_string` of a `qbe::Module`, that is its `Display`: the text of the
/// functions and then of the data definitions, which depends on nothing but
/// what the module holds.
#[verifier::external_body]
fn module_to_string(module: &qbe::Module) -> (written: String)
    requires
        module_model(*module) is Some,
    ensures
        written@ == module_text(module_model(*module).unwrap()),
{
    module.to_string()
}

/// Makes the `qbe` type that stands for `ty`.
fn emit_type(ty: IrType) -> (made: qbe::Type)
    ensures
        type_model(made) == Some(ty),
{
    match ty {
        IrType::Byte => byte_type(),
        IrType::Word => word_type(),
        IrType::Long => long_type(),
        IrType::Double => double_type(),
    }
}

/// Makes the `qbe` linkage that stands for `linkage`.
fn emit_linkage(linkage: IrLinkage) -> (made: qbe::Linkage)
    ensures
        linkage_model(made) == Some(linkage),
{
    match linkage {
        IrLinkage::Private => private_linkage(),
        IrLinkage::Public => public_linkage(),
    }
}

/// Makes the `qbe` operand that stands for `value`.
fn emit_value(value: &IrValue) -> (made: qbe::Value)
    ensures
        value_model(made) == Some(value@),
{
    match value {
        IrValue::Temporary(name) => temporary_value(name.as_str()),
        IrValue::Global(name) => global_value(name.as_str()),
        IrValue::Const(bits) => const_value(*bits),
    }
}

/// Makes the `qbe` data item that stands for `item`.
fn emit_item(item: &IrItem) -> (made: qbe::DataItem)
    ensures
        item_model(made) == Some(item@),
{
    match item {
        IrItem::Symbol(name) => symbol_item(name.as_str()),
        IrItem::Str(raw) => str_item(raw.as_str()),
        IrItem::Const(bits) => const_item(*bits),
    }
}

/// Makes the typed `qbe` operands that stand for `operands`.
fn emit_operands(operands: &Vec<(IrType, IrValue)>) -> (made: Vec<(qbe::Type, qbe::Value)>)
    ensures
        operands_modelled(made@),
        operands_model(made@) == operand_views(operands@),
{
    let mut made: Vec<(qbe::Type, qbe::Value)> = Vec::new();
    for i in 0..operands.len()
        invariant
            made@.len() == i,
            operands_modelled(made@),
            operands_model(made@) == operand_views(operands@.take(i as int)),
    {
        let ghost before = made@;
        let one = (emit_type(operands[i].0), emit_value(&operands[i].1));
        made.push(one);
        assert(operands_modelled(made@)) by {
            assert forall|j: int| 0 <= j < made@.len() implies type_model(
                (#[trigger] made@[j]).0,
            ) is Some && value_model(made@[j].1) is Some by {
                if j < i {
                    assert(made@[j] == before[j]);
                }
            }
        }
        assert(operands_model(made@) =~= operand_views(operands@.take(i + 1))) by {
            assert forall|j: int| 0 <= j < made@.len() implies operands_model(made@)[j]
                == operand_views(operands@.take(i + 1))[j] by {
                if j < i {
                    assert(made@[j] == before[j]);
                    assert(operands_model(before)[j] == operand_views(
                        operands@.take(i as int),
                    )[j]);
                }
            }
        }
    }
    assert(operands@.take(operands@.len() as int) =~= operands@);
    made
}

/// Makes the `qbe` instruction that stands for `instr`.
fn emit_instr(instr: &IrInstr) -> (made: qbe::Instr)
    ensures
        instr_model(made) == Some(instr@),
{
    match instr {
        IrInstr::Call(name, args) => call_instr(name.as_str(), emit_operands(args)),
        IrInstr::Ret(value) => ret_instr(emit_value(value)),
    }
}

/// Makes the `qbe` data definition that stands for `def`.
fn emit_data(def: &IrData) -> (made: qbe::DataDef)
    ensures
        data_model(made) == Some(def@),
{
    let mut items: Vec<(qbe::Type, qbe::DataItem)> = Vec::new();
    for i in 0..def.items.len()
        invariant
            items@.len() == i,
            items_modelled(items@),
            items_model(items@) == item_views(def.items@.take(i as int)),
    {
        let ghost before = items@;
        let one = (emit_type(def.items[i].0), emit_item(&def.items[i].1));
        items.push(one);
        assert(items_modelled(items@)) by {
            assert forall|j: int| 0 <= j < items@.len() implies type_model(
                (#[trigger] items@[j]).0,
            ) is Some && item_model(items@[j].1) is Some by {
                if j < i {
                    assert(items@[j] == before[j]);
                }
            }
        }
        assert(items_model(items@) =~= item_views(def.items@.take(i + 1))) by {
            assert forall|j: int| 0 <= j < items@.len() implies items_model(items@)[j]
                == item_views(def.items@.take(i + 1))[j] by {
                if j < i {
                    assert(items@[j] == before[j]);
                    assert(items_model(before)[j] == item_views(def.items@.take(i as int))[j]);
                }
            }
        }
    }
    assert(def.items@.take(def.items@.len() as int) =~= def.items@);
    new_data(emit_linkage(def.linkage), def.name.as_str(), items)
}

/// Makes the `qbe` function that stands for `function`.
fn emit_function(function: &IrFunction) -> (made: qbe::Function)
    ensures
        function_model(made) == Some(function@),
{
    let mut made = new_function(
        emit_linkage(function.linkage),
        function.name.as_str(),
        emit_operands(&function.arguments),
        emit_type(function.return_ty),
    );
    assert(block_views(function.blocks@.take(0)) =~= Seq::<IrBlockView>::empty());
    for i in 0..function.blocks.len()
        invariant
            function_model(made) == Some(
                IrFunctionView {
                    blocks: block_views(function.blocks@.take(i as int)),
                    ..function@
                },
            ),
    {
        let block = &function.blocks[i];
        let ghost done = block_views(function.blocks@.take(i as int));
        add_block(&mut made, block.label.as_str());
        assert(instr_views(block.instrs@.take(0)) =~= Seq::<IrInstrView>::empty());
        for j in 0..block.instrs.len()
            invariant
                done == block_views(function.blocks@.take(i as int)),
                block == function.blocks@[i as int],
                function_model(made) == Some(
                    IrFunctionView {
                        blocks: done.push(
                            IrBlockView {
                                label: block.label@,
                                instrs: instr_views(block.instrs@.take(j as int)),
                            },
                        ),
                        ..function@
                    },
                ),
        {
            let ghost now = function_model(made).unwrap();
            let instr = emit_instr(&block.instrs[j]);
            add_instr(&mut made, instr);
            assert(now.blocks.drop_last() =~= done);
            assert(instr_views(block.instrs@.take(j as int)).push(block.instrs@[j as int]@)
                =~= instr_views(block.instrs@.take(j + 1)));
        }
        assert(block.instrs@.take(block.instrs@.len() as int) =~= block.instrs@);
        assert(done.push(block@) =~= block_views(function.blocks@.take(i + 1)));
    }
    assert(function.blocks@.take(function.blocks@.len() as int) =~= function.blocks@);
    made
}

/// Makes the `qbe` module that stands for `module`: its functions and its
/// data definitions, each in their order.
pub fn to_backend(module: &IrModule) -> (made: qbe::Module)
    ensures
        module_model(made) == Some(module@),
{
    let mut made = new_module();
    assert(function_views(module.functions@.take(0)) =~= Seq::<IrFunctionView>::empty());
    for i in 0..module.functions.len()
        invariant
            module_model(made) == Some(
                IrModuleView {
                    functions: function_views(module.functions@.take(i as int)),
                    data: Seq::empty(),
                },
            ),
    {
        let function = emit_function(&module.functions[i]);
        add_function(&mut made, function);
        assert(function_views(module.functions@.take(i as int)).push(module.functions@[i as int]@)
            =~= function_views(module.functions@.take(i + 1)));
    }
    assert(module.functions@.take(module.functions@.len() as int) =~= module.functions@);
    assert(data_views(module.data@.take(0)) =~= Seq::<IrDataView>::empty());
    for i in 0..module.data.len()
        invariant
            module_model(made) == Some(
                IrModuleView {
                    functions: function_views(module.functions@),
                    data: data_views(module.data@.take(i as int)),
                },
            ),
    {
        let def = emit_data(&module.data[i]);
        add_data(&mut made, def);
        assert(data_views(module.data@.take(i as int)).push(module.data@[i as int]@)
            =~= data_views(module.data@.take(i + 1)));
    }
    assert(module.data@.take(module.data@.len() as int) =~= module.data@);
    made
}

/// Writes a module as the text that `qbe` gives for it.
pub fn emit(module: &IrModule) -> (written: String)
    ensures
        written@ == module_text(module@),
{
    let made = to_backend(module);
    module_to_string(&made)
}

} // verus!
