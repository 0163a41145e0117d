//! A two-stage compiler for the Hack computer: a stack-oriented VM language
//! is lowered to Hack assembly, and Hack assembly is packed into 16-bit words.
pub mod diagnostic;
pub mod text;
pub mod assembly;
pub mod hex;
pub mod vm;

use vstd::prelude::*;
use crate::assembly::{assembled, Assembly};
use crate::hex::{hex_text, Hex};
use crate::vm::{vm_compile, VM};

verus! {

/// A program at one of its three stages: VM code, assembly, machine words.
pub enum CodeType {
    VM(VM),
    Assembly(Assembly),
    Hex(Hex),
}

impl CodeType {
    /// Takes the program through the stages that are left, down to machine
    /// words. The first fault of a stage ends the compilation.
    pub fn compile(self) -> (r: Result<Hex, String>)
        ensures
            match self {
                CodeType::Hex(hex) => r matches Ok(out) && out.instructions@ == hex.instructions@,
                CodeType::Assembly(assembly) => assembled(assembly@, r),
                CodeType::VM(vm) => match vm_compile(vm.unit(), vm.file(), vm.drawn()) {
                    Ok(program) => assembled(program, r),
                    Err(fault) => r matches Err(text) && text@ == fault.message(),
                },
            },
    {
        match self {
            CodeType::Hex(hex) => Ok(hex),
            CodeType::Assembly(assembly) => assembly.to_hex(),
            CodeType::VM(vm) => match vm.to_assembly() {
                Ok(assembly) => assembly.to_hex(),
                Err(text) => Err(text),
            },
        }
    }

    /// The text to write out for this stage: the `.hack` text of machine
    /// words, and nothing for the earlier stages.
    pub fn write(&self) -> (r: Option<String>)
        ensures
            match self {
                CodeType::Hex(hex) => r matches Some(text) && text@ == hex_text(hex.instructions@),
                _ => r is None,
            },
    {
        match self {
            CodeType::VM(_) => None,
            CodeType::Assembly(_) => None,
            CodeType::Hex(v) => Some(v.render()),
        }
    }
}

} // verus!
