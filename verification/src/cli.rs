//! The command line of the `hyper` tool: which output `compile` produces.

use vstd::prelude::*;
use crate::text::{to_string, string_is, copy_string, chars_of, append_chars, string_from_chars};

verus! {

/// What `hyper compile` produces.
#[derive(Debug, PartialEq)]
pub enum CompileMode {
    /// Compile and run at once.
    Jit,
    /// Print the intermediate representation.
    EmitIr,
    /// Write an object file.
    EmitObj { path: String },
    /// Write an executable.
    EmitExe { path: String },
}

/// The reading of a [`CompileMode`], with paths as text.
pub enum ModeView {
    Jit,
    EmitIr,
    EmitObj(Seq<char>),
    EmitExe(Seq<char>),
}

impl View for CompileMode {
    type V = ModeView;

    open spec fn view(&self) -> ModeView {
        match self {
            CompileMode::Jit => ModeView::Jit,
            CompileMode::EmitIr => ModeView::EmitIr,
            CompileMode::EmitObj { path } => ModeView::EmitObj(path@),
            CompileMode::EmitExe { path } => ModeView::EmitExe(path@),
        }
    }
}

/// The compile mode the options after the file name select: none means
/// `Jit`; `--emit-obj` and `--emit-exe` take an optional path (`a.o` and
/// `hyper_out` by default); any other first option is refused with its text.
pub open spec fn compile_mode_spec(args: Seq<Seq<char>>) -> Result<ModeView, Seq<char>> {
    if args.len() == 0 {
        Ok(ModeView::Jit)
    } else if args[0] == "--emit-ir"@ {
        Ok(ModeView::EmitIr)
    } else if args[0] == "--emit-obj"@ {
        Ok(ModeView::EmitObj(if args.len() > 1 { args[1] } else { "a.o"@ }))
    } else if args[0] == "--emit-exe"@ {
        Ok(ModeView::EmitExe(if args.len() > 1 { args[1] } else { "hyper_out"@ }))
    } else {
        Err("Unknown compile option: "@ + args[0])
    }
}

pub open spec fn arg_texts(args: Seq<String>) -> Seq<Seq<char>> {
    args.map_values(|a: String| a@)
}

/// Reads the options of `hyper compile <file>`.  An unknown option gives the
/// first line of the message the tool prints before it exits.
pub fn parse_compile_mode(args: &Vec<String>) -> (r: Result<CompileMode, String>)
    ensures
        match (r, compile_mode_spec(arg_texts(args@))) {
            (Ok(m), Ok(v)) => m@ == v,
            (Err(e), Err(v)) => e@ == v,
            _ => false,
        },
{
    let ghost t = arg_texts(args@);
    if args.len() == 0 {
        return Ok(CompileMode::Jit);
    }
    assert(t[0] == args@[0]@);
    if args.len() > 1 {
        assert(t[1] == args@[1]@);
    }
    if string_is(&args[0], "--emit-ir") {
        Ok(CompileMode::EmitIr)
    } else if string_is(&args[0], "--emit-obj") {
        let path = if args.len() > 1 { copy_string(&args[1]) } else { to_string("a.o") };
        Ok(CompileMode::EmitObj { path })
    } else if string_is(&args[0], "--emit-exe") {
        let path = if args.len() > 1 { copy_string(&args[1]) } else { to_string("hyper_out") };
        Ok(CompileMode::EmitExe { path })
    } else {
        let mut msg = chars_of("Unknown compile option: ");
        let opt = chars_of(args[0].as_str());
        append_chars(&mut msg, &opt);
        Err(string_from_chars(msg))
    }
}

} // verus!
