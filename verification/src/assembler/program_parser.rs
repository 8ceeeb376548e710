//! The whole-program parser: one or more instructions, read from the front
//! of the text until no further instruction matches.
use crate::assembler::base_assembler::{AssemblerError, ErrModel};
use crate::assembler::instruction_parser::{
    instruction, spec_instr_to_bytes, spec_instruction, AssemblerInstruction, InstrModel,
};
use crate::assembler::{SymbolModel, SymbolTable};
use vstd::prelude::*;

verus! {

/// An ordered program: the instructions in the order they were parsed.
#[derive(Debug, PartialEq, Clone)]
pub struct Program {
    pub instructions: Vec<AssemblerInstruction>,
}

impl View for Program {
    type V = Seq<InstrModel>;

    open spec fn view(&self) -> Seq<InstrModel> {
        self.instructions@.map_values(|x: AssemblerInstruction| x@)
    }
}

/// As many instructions as match, one after the other, with the position
/// where the run stops. Every instruction consumes at least one character,
/// which bounds the run.
pub open spec fn spec_many_instructions(s: Seq<char>, pos: int) -> (int, Seq<InstrModel>)
    decreases s.len() - pos,
{
    match spec_instruction(s, pos) {
        None => (pos, Seq::<InstrModel>::empty()),
        Some((np, ins)) => if pos < np <= s.len() {
            let (e, rest) = spec_many_instructions(s, np);
            (e, seq![ins] + rest)
        } else {
            (pos, Seq::<InstrModel>::empty())
        },
    }
}

/// A program is one or more instructions from the start of the text; none
/// at all is a parse failure.
pub open spec fn spec_program(s: Seq<char>) -> Option<(int, Seq<InstrModel>)> {
    let (e, instrs) = spec_many_instructions(s, 0);
    if instrs.len() == 0 {
        None
    } else {
        Some((e, instrs))
    }
}

/// Parse a program from the start of the text; the returned position is
/// where parsing stopped, and any remainder is the caller's to judge.
pub fn program(s: &str) -> (r: Option<(usize, Program)>)
    ensures
        match r {
            Some((e, p)) => spec_program(s@) == Some((e as int, p@)) && e <= s@.len() && p@.len()
                > 0,
            None => spec_program(s@) is None,
        },
{
    let mut out: Vec<AssemblerInstruction> = Vec::new();
    let mut pos: usize = 0;
    loop
        invariant
            pos <= s@.len(),
            spec_many_instructions(s@, 0).0 == spec_many_instructions(s@, pos as int).0,
            spec_many_instructions(s@, 0).1 == out@.map_values(|x: AssemblerInstruction| x@)
                + spec_many_instructions(s@, pos as int).1,
        ensures
            pos <= s@.len(),
            spec_instruction(s@, pos as int) is None,
            spec_many_instructions(s@, 0).0 == spec_many_instructions(s@, pos as int).0,
            spec_many_instructions(s@, 0).1 == out@.map_values(|x: AssemblerInstruction| x@)
                + spec_many_instructions(s@, pos as int).1,
        decreases s@.len() - pos,
    {
        match instruction(s, pos) {
            Some((np, ins)) => {
                let ghost pre = out@.map_values(|x: AssemblerInstruction| x@);
                out.push(ins);
                proof {
                    assert(out@.map_values(|x: AssemblerInstruction| x@) =~= pre.push(ins@));
                    assert(pre.push(ins@) + spec_many_instructions(s@, np as int).1 =~= pre + (
                    seq![ins@] + spec_many_instructions(s@, np as int).1));
                }
                pos = np;
            },
            None => {
                break ;
            },
        }
    }
    proof {
        assert(spec_many_instructions(s@, pos as int).1 =~= Seq::<InstrModel>::empty());
    }
    if out.len() == 0 {
        return None;
    }
    let p = Program { instructions: out };
    proof {
        assert(spec_many_instructions(s@, 0).1 =~= p@);
    }
    Some((pos, p))
}

/// What encoding a program without a symbol table yields: each line's
/// 4-byte word against an empty table, joined; the first fault is fatal.
pub open spec fn spec_program_bytes(instrs: Seq<InstrModel>, i: int) -> Result<Seq<u8>, ErrModel>
    decreases instrs.len() - i,
{
    if i < 0 || i >= instrs.len() {
        Ok(Seq::<u8>::empty())
    } else {
        match spec_instr_to_bytes(instrs[i], Seq::<SymbolModel>::empty()) {
            Ok(b) => match spec_program_bytes(instrs, i + 1) {
                Ok(rest) => Ok(b + rest),
                Err(e) => Err(e),
            },
            Err(e) => Err(e),
        }
    }
}

impl Program {
    /// Encode every line against an empty symbol table; label operands
    /// therefore fail, as no symbols exist to resolve them.
    pub fn to_bytes(&self) -> (r: Result<Vec<u8>, AssemblerError>)
        ensures
            match r {
                Ok(b) => spec_program_bytes(self@, 0) == Ok::<Seq<u8>, ErrModel>(b@),
                Err(e) => spec_program_bytes(self@, 0) == Err::<Seq<u8>, ErrModel>(e@),
            },
    {
        let table = SymbolTable::new();
        let mut acc: Vec<u8> = Vec::new();
        let n = self.instructions.len();
        let mut i: usize = 0;
        while i < n
            invariant
                0 <= i <= n,
                n == self.instructions.len(),
                table@ == Seq::<SymbolModel>::empty(),
                spec_program_bytes(self@, 0) == (match spec_program_bytes(self@, i as int) {
                    Ok(rest) => Ok::<Seq<u8>, ErrModel>(acc@ + rest),
                    Err(e) => Err::<Seq<u8>, ErrModel>(e),
                }),
            decreases n - i,
        {
            proof {
                assert(self@[i as int] == self.instructions@[i as int]@);
            }
            match self.instructions[i].to_bytes(&table) {
                Ok(mut b) => {
                    let ghost bs = b@;
                    let ghost accpre = acc@;
                    acc.append(&mut b);
                    proof {
                        match spec_program_bytes(self@, i as int + 1) {
                            Ok(rest) => {
                                assert(accpre + (bs + rest) =~= (accpre + bs) + rest);
                            },
                            Err(_) => {},
                        }
                    }
                },
                Err(e) => {
                    return Err(e);
                },
            }
            i = i + 1;
        }
        proof {
            assert(acc@ + Seq::<u8>::empty() =~= acc@);
        }
        Ok(acc)
    }
}

} // verus!
