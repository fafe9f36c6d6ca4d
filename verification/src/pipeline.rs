//! From a source text to the text of its module, and what a driver needs
//! beside it: the commands it takes and the files it makes.

use crate::ast::ExprView;
use crate::compile::{compile, lowered, UnsupportedConstruct};
use crate::emit::{emit, module_text};
use crate::grammar::{program, ParseError};
use crate::ir::IrModuleView;
use crate::parse::parse_ast;
use vstd::prelude::*;
use vstd::string::{StringExecFns, StringSliceAdditionalSpecFns};

verus! {

/// Why a text has no module.
#[derive(Clone, Copy, Debug, PartialEq, Eq)]
pub enum Error {
    /// The text is no program.
    Parse(ParseError),
    /// The program holds a node that lowering has no rule for.
    Unsupported(UnsupportedConstruct),
}

impl Error {
    /// The error in words: those of the fault or of the node.
    pub open spec fn words(self) -> Seq<char> {
        match self {
            Error::Parse(e) => e.words(),
            Error::Unsupported(e) => e.words(),
        }
    }

    /// Writes the error in words.
    pub fn message(&self) -> (r: String)
        ensures
            r@ == self.words(),
    {
        match self {
            Error::Parse(e) => e.message(),
            Error::Unsupported(e) => e.message(),
        }
    }
}

/// The written module of a source text: the text is parsed, its tree is
/// lowered, and the module is written. The first stage that fails gives the
/// error.
pub open spec fn compiled_text(source: Seq<u8>) -> Result<Seq<char>, Error> {
    match program(source) {
        Err(e) => Err(Error::Parse(e)),
        Ok(tree) => match lowered(tree) {
            Err(e) => Err(Error::Unsupported(e)),
            Ok(module) => Ok(module_text(module)),
        },
    }
}

/// Compiles a source text to the text of its module.
pub fn compile_text(source: &str) -> (r: Result<String, Error>)
    ensures
        match r {
            Ok(written) => compiled_text(source.spec_bytes()) == Ok::<_, Error>(written@),
            Err(e) => compiled_text(source.spec_bytes()) == Err::<Seq<char>, _>(e),
        },
{
    let tree = match parse_ast(source) {
        Ok(tree) => tree,
        Err(e) => {
            return Err(Error::Parse(e));
        },
    };
    match compile(tree.as_slice()) {
        Ok(module) => Ok(emit(&module)),
        Err(e) => Err(Error::Unsupported(e)),
    }
}

/// Parsing, lowering and writing depend on nothing but what they are given:
/// whenever a text is parsed, its tree lowered and the module written, the
/// same tree, the same module and the same written text come out.
pub proof fn lemma_runs_agree(
    source: Seq<u8>,
    first_tree: Seq<ExprView>,
    second_tree: Seq<ExprView>,
    first_module: IrModuleView,
    second_module: IrModuleView,
    first_text: Seq<char>,
    second_text: Seq<char>,
)
    requires
        program(source) == Ok::<_, ParseError>(first_tree),
        program(source) == Ok::<_, ParseError>(second_tree),
        lowered(first_tree) == Ok::<_, UnsupportedConstruct>(first_module),
        lowered(second_tree) == Ok::<_, UnsupportedConstruct>(second_module),
        module_text(first_module) == first_text,
        module_text(second_module) == second_text,
    ensures
        first_tree == second_tree,
        first_module == second_module,
        first_text == second_text,
        compiled_text(source) == Ok::<_, Error>(first_text),
{
}

/// What a driver is asked to do with a source file.
#[derive(Clone, Copy, Debug, PartialEq, Eq)]
pub enum Command {
    /// Parse and lower, and show the tree and the module.
    Check,
    /// Build the executable.
    Compile,
    /// Build the executable and run it.
    Run,
}

/// The command that a word names.
pub open spec fn command_of(word: Seq<char>) -> Option<Command> {
    if word == "check"@ {
        Some(Command::Check)
    } else if word == "compile"@ {
        Some(Command::Compile)
    } else if word == "run"@ {
        Some(Command::Run)
    } else {
        None
    }
}

/// Reads a command word: `check`, `compile` or `run`. Another word gives the
/// message `Invalid command: ` with the word after it.
pub fn command(word: &str) -> (r: Result<Command, String>)
    ensures
        match r {
            Ok(c) => command_of(word@) == Some(c),
            Err(message) => command_of(word@) is None && message@ == "Invalid command: "@ + word@,
        },
{
    let given = String::from_str(word);
    if given == String::from_str("check") {
        Ok(Command::Check)
    } else if given == String::from_str("compile") {
        Ok(Command::Compile)
    } else if given == String::from_str("run") {
        Ok(Command::Run)
    } else {
        Err(String::from_str("Invalid command: ").concat(word))
    }
}

/// The files of a build.
#[derive(Debug, PartialEq, Eq)]
pub struct Artifacts {
    /// Where the text of the module is written.
    pub module: String,
    /// Where the assembler output goes.
    pub assembly: String,
    /// Where the executable goes.
    pub executable: String,
}

/// Names the files of the build of a source file with the stem `stem`:
/// `build/` and the stem, with `.ssa` for the module, `.s` for the assembly,
/// and nothing more for the executable.
pub fn artifacts(stem: &str) -> (files: Artifacts)
    ensures
        files.module@ == "build/"@ + stem@ + ".ssa"@,
        files.assembly@ == "build/"@ + stem@ + ".s"@,
        files.executable@ == "build/"@ + stem@,
{
    Artifacts {
        module: String::from_str("build/").concat(stem).concat(".ssa"),
        assembly: String::from_str("build/").concat(stem).concat(".s"),
        executable: String::from_str("build/").concat(stem),
    }
}

} // verus!
