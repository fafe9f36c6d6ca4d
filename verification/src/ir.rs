//! The backend module that lowering builds: data definitions and functions
//! made of labelled blocks of instructions.

use vstd::prelude::*;
use vstd::utf8::encode_utf8;

verus! {

/// Visibility of a function or of a data definition.
#[derive(Clone, Copy, Debug, PartialEq, Eq)]
pub enum IrLinkage {
    /// Internal to the module.
    Private,
    /// Callable and referable from outside the module.
    Public,
}

/// Size and kind of a value.
#[derive(Clone, Copy, Debug, PartialEq, Eq)]
pub enum IrType {
    /// 8 bits.
    Byte,
    /// 32 bits, the machine word.
    Word,
    /// 64 bits, the width of a pointer.
    Long,
    /// 64-bit floating point.
    Double,
}

/// An operand of an instruction.
#[derive(Debug, PartialEq, Eq)]
pub enum IrValue {
    /// The temporary of that name, local to a function.
    Temporary(String),
    /// The address of the global of that name.
    Global(String),
    /// An immediate bit pattern.
    Const(u64),
}

/// What an `IrValue` holds.
pub enum IrValueView {
    Temporary(Seq<char>),
    Global(Seq<char>),
    Const(u64),
}

impl View for IrValue {
    type V = IrValueView;

    open spec fn view(&self) -> IrValueView {
        match self {
            IrValue::Temporary(name) => IrValueView::Temporary(name@),
            IrValue::Global(name) => IrValueView::Global(name@),
            IrValue::Const(bits) => IrValueView::Const(*bits),
        }
    }
}

/// One item of a data definition.
#[derive(Debug, PartialEq, Eq)]
pub enum IrItem {
    /// The address of the global of that name.
    Symbol(String),
    /// The bytes of a text.
    Str(String),
    /// A constant bit pattern.
    Const(u64),
}

/// What an `IrItem` holds.
pub enum IrItemView {
    Symbol(Seq<char>),
    Str(Seq<char>),
    Const(u64),
}

impl View for IrItem {
    type V = IrItemView;

    open spec fn view(&self) -> IrItemView {
        match self {
            IrItem::Symbol(name) => IrItemView::Symbol(name@),
            IrItem::Str(raw) => IrItemView::Str(raw@),
            IrItem::Const(bits) => IrItemView::Const(*bits),
        }
    }
}

/// The views of typed data items, in order.
pub open spec fn item_views(items: Seq<(IrType, IrItem)>) -> Seq<(IrType, IrItemView)> {
    Seq::new(items.len(), |i: int| (items[i].0, items[i].1@))
}

/// A named constant of the module.
#[derive(Debug, PartialEq, Eq)]
pub struct IrData {
    pub linkage: IrLinkage,
    pub name: String,
    pub items: Vec<(IrType, IrItem)>,
}

/// What an `IrData` holds.
pub struct IrDataView {
    pub linkage: IrLinkage,
    pub name: Seq<char>,
    pub items: Seq<(IrType, IrItemView)>,
}

impl View for IrData {
    type V = IrDataView;

    open spec fn view(&self) -> IrDataView {
        IrDataView {
            linkage: self.linkage,
            name: self.name@,
            items: item_views(self.items@),
        }
    }
}

impl IrDataView {
    /// The bytes that the definition lays out, where all its items are byte
    /// items: a text gives its UTF-8 bytes, a constant under 256 one byte.
    pub open spec fn byte_image(self) -> Option<Seq<u8>> {
        byte_image_of(self.items)
    }
}

/// The bytes of a sequence of byte items, if all of them are.
pub open spec fn byte_image_of(items: Seq<(IrType, IrItemView)>) -> Option<Seq<u8>>
    decreases items.len(),
{
    if items.len() == 0 {
        Some(Seq::empty())
    } else {
        let head: Option<Seq<u8>> = match items[0] {
            (IrType::Byte, IrItemView::Str(raw)) => Some(encode_utf8(raw)),
            (IrType::Byte, IrItemView::Const(bits)) => if bits < 256 {
                Some(seq![bits as u8])
            } else {
                None
            },
            _ => None,
        };
        match (head, byte_image_of(items.skip(1))) {
            (Some(first), Some(rest)) => Some(first + rest),
            _ => None,
        }
    }
}

/// The views of data definitions, in order.
pub open spec fn data_views(defs: Seq<IrData>) -> Seq<IrDataView> {
    Seq::new(defs.len(), |i: int| defs[i]@)
}

/// The views of typed operands, in order.
pub open spec fn operand_views(operands: Seq<(IrType, IrValue)>) -> Seq<(IrType, IrValueView)> {
    Seq::new(operands.len(), |i: int| (operands[i].0, operands[i].1@))
}

/// An instruction of a block.
#[derive(Debug, PartialEq, Eq)]
pub enum IrInstr {
    /// Calls the named function with typed operands.
    Call(String, Vec<(IrType, IrValue)>),
    /// Returns a value from the function.
    Ret(IrValue),
}

/// What an `IrInstr` holds.
pub enum IrInstrView {
    Call(Seq<char>, Seq<(IrType, IrValueView)>),
    Ret(IrValueView),
}

impl View for IrInstr {
    type V = IrInstrView;

    open spec fn view(&self) -> IrInstrView {
        match self {
            IrInstr::Call(name, args) => IrInstrView::Call(
                name@,
                operand_views(args@),
            ),
            IrInstr::Ret(value) => IrInstrView::Ret(value@),
        }
    }
}

/// The views of instructions, in order.
pub open spec fn instr_views(instrs: Seq<IrInstr>) -> Seq<IrInstrView> {
    Seq::new(instrs.len(), |i: int| instrs[i]@)
}

/// A labelled sequence of instructions.
#[derive(Debug, PartialEq, Eq)]
pub struct IrBlock {
    pub label: String,
    pub instrs: Vec<IrInstr>,
}

/// What an `IrBlock` holds.
pub struct IrBlockView {
    pub label: Seq<char>,
    pub instrs: Seq<IrInstrView>,
}

impl View for IrBlock {
    type V = IrBlockView;

    open spec fn view(&self) -> IrBlockView {
        IrBlockView {
            label: self.label@,
            instrs: instr_views(self.instrs@),
        }
    }
}

/// The views of blocks, in order.
pub open spec fn block_views(blocks: Seq<IrBlock>) -> Seq<IrBlockView> {
    Seq::new(blocks.len(), |i: int| blocks[i]@)
}

/// A function of the module: its parameters, each a typed temporary, the
/// type that it returns, and its blocks.
#[derive(Debug, PartialEq, Eq)]
pub struct IrFunction {
    pub linkage: IrLinkage,
    pub name: String,
    pub arguments: Vec<(IrType, IrValue)>,
    pub return_ty: IrType,
    pub blocks: Vec<IrBlock>,
}

/// What an `IrFunction` holds.
pub struct IrFunctionView {
    pub linkage: IrLinkage,
    pub name: Seq<char>,
    pub arguments: Seq<(IrType, IrValueView)>,
    pub return_ty: IrType,
    pub blocks: Seq<IrBlockView>,
}

impl View for IrFunction {
    type V = IrFunctionView;

    open spec fn view(&self) -> IrFunctionView {
        IrFunctionView {
            linkage: self.linkage,
            name: self.name@,
            arguments: operand_views(self.arguments@),
            return_ty: self.return_ty,
            blocks: block_views(self.blocks@),
        }
    }
}

/// The views of functions, in order.
pub open spec fn function_views(functions: Seq<IrFunction>) -> Seq<IrFunctionView> {
    Seq::new(functions.len(), |i: int| functions[i]@)
}

/// The functions and the data definitions of a program, each in the order in
/// which lowering met them.
#[derive(Debug, PartialEq, Eq)]
pub struct IrModule {
    pub functions: Vec<IrFunction>,
    pub data: Vec<IrData>,
}

/// What an `IrModule` holds.
pub struct IrModuleView {
    pub functions: Seq<IrFunctionView>,
    pub data: Seq<IrDataView>,
}

impl View for IrModule {
    type V = IrModuleView;

    open spec fn view(&self) -> IrModuleView {
        IrModuleView {
            functions: function_views(self.functions@),
            data: data_views(self.data@),
        }
    }
}

} // verus!
