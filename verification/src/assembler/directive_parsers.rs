//! Parser for directive lines: an optional label declaration, a `.name`
//! directive, and up to three operands, with whitespace allowed between all
//! parts.
use crate::assembler::instruction_parser::{AssemblerInstruction, InstrModel};
use crate::assembler::label_parsers;
use crate::assembler::operand_parser;
use crate::assembler::scan;
use crate::assembler::{Token, TokenModel};
use vstd::prelude::*;

verus! {

/// A directive name at `pos`: a dot immediately followed by a nonempty run
/// of letters.
pub open spec fn spec_directive_declaration(s: Seq<char>, pos: int) -> Option<(int, TokenModel)> {
    if pos < s.len() && s[pos] == '.' {
        let j = scan::spec_scan_alpha(s, pos + 1);
        if j == pos + 1 {
            None
        } else {
            Some((j, TokenModel::Directive { name: s.subrange(pos + 1, j) }))
        }
    } else {
        None
    }
}

/// A whole directive line. Whitespace is skipped before every part and
/// after the line; a failed optional part moves nothing but that skipped
/// whitespace.
pub open spec fn spec_directive_combined(s: Seq<char>, pos: int) -> Option<(int, InstrModel)> {
    let i0 = scan::spec_skip_space(s, pos);
    let (lab, i1): (Option<TokenModel>, int) = match label_parsers::spec_label_declaration(
        s,
        i0,
    ) {
        Some((e, t)) => (Some(t), e),
        None => (None, i0),
    };
    let i2 = scan::spec_skip_space(s, i1);
    match spec_directive_declaration(s, i2) {
        None => None,
        Some((i3, d)) => {
            let j1 = scan::spec_skip_space(s, i3);
            let (e1, o1) = spec_opt_operand_sep(s, j1);
            let j2 = scan::spec_skip_space(s, e1);
            let (e2, o2) = spec_opt_operand_sep(s, j2);
            let j3 = scan::spec_skip_space(s, e2);
            let (e3, o3) = spec_opt_operand_sep(s, j3);
            let e = scan::spec_skip_space(s, e3);
            Some(
                (
                    e,
                    InstrModel {
                        opcode: None,
                        directive: Some(d),
                        label: lab,
                        operand1: o1,
                        operand2: o2,
                        operand3: o3,
                    },
                ),
            )
        },
    }
}

/// An optional operand after a whitespace separator was already skipped.
pub open spec fn spec_opt_operand_sep(s: Seq<char>, pos: int) -> (int, Option<TokenModel>) {
    match operand_parser::spec_operand(s, pos) {
        Some((e, t)) => (e, Some(t)),
        None => (pos, None),
    }
}

/// A directive line as an instruction.
pub open spec fn spec_directive(s: Seq<char>, pos: int) -> Option<(int, InstrModel)> {
    spec_directive_combined(s, pos)
}

pub fn directive_combined(s: &str, pos: usize) -> (r: Option<(usize, AssemblerInstruction)>)
    requires
        pos <= s@.len(),
    ensures
        match r {
            Some((e, ins)) => spec_directive_combined(s@, pos as int) == Some((e as int, ins@))
                && pos < e <= s@.len(),
            None => spec_directive_combined(s@, pos as int) is None,
        },
{
    let i0 = scan::skip_space(s, pos);
    let (lab, i1) = match label_parsers::label_declaration(s, i0) {
        Some((e, t)) => (Some(t), e),
        None => (None, i0),
    };
    let i2 = scan::skip_space(s, i1);
    let n = s.unicode_len();
    if !(i2 < n && s.get_char(i2) == '.') {
        return None;
    }
    let j = scan::scan_alpha(s, i2 + 1);
    if j == i2 + 1 {
        return None;
    }
    let name = scan::substring(s, i2 + 1, j);
    let d = Token::Directive { name };
    let i3 = j;
    let j1 = scan::skip_space(s, i3);
    let (e1, o1) = match operand_parser::operand(s, j1) {
        Some((e, t)) => (e, Some(t)),
        None => (j1, None),
    };
    let j2 = scan::skip_space(s, e1);
    let (e2, o2) = match operand_parser::operand(s, j2) {
        Some((e, t)) => (e, Some(t)),
        None => (j2, None),
    };
    let j3 = scan::skip_space(s, e2);
    let (e3, o3) = match operand_parser::operand(s, j3) {
        Some((e, t)) => (e, Some(t)),
        None => (j3, None),
    };
    let e = scan::skip_space(s, e3);
    Some(
        (
            e,
            AssemblerInstruction {
                opcode: None,
                directive: Some(d),
                label: lab,
                operand1: o1,
                operand2: o2,
                operand3: o3,
            },
        ),
    )
}

/// The one directive alternative, kept as its own entry point as the
/// grammar names it.
pub fn directive(s: &str, pos: usize) -> (r: Option<(usize, AssemblerInstruction)>)
    requires
        pos <= s@.len(),
    ensures
        match r {
            Some((e, ins)) => spec_directive(s@, pos as int) == Some((e as int, ins@)) && pos < e
                <= s@.len(),
            None => spec_directive(s@, pos as int) is None,
        },
{
    directive_combined(s, pos)
}

} // verus!
