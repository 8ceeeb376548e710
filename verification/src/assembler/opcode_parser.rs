//! Parsers for mnemonics. `opcode` reads any run of letters and looks it up
//! in the mnemonic table, so an unknown word still parses, as `IGL`;
//! `opcode_load` matches the word `load` alone.
use crate::assembler::scan;
use crate::assembler::{Token, TokenModel};
use crate::instruction::{spec_opcode_from_mnemonic, Opcode};
use vstd::prelude::*;

verus! {

/// A mnemonic at `pos`: a nonempty run of letters, taken as it stands, with
/// no whitespace skipped before it.
pub open spec fn spec_opcode(s: Seq<char>, pos: int) -> Option<(int, TokenModel)> {
    let j = scan::spec_scan_alpha(s, pos);
    if j == pos {
        None
    } else {
        Some((j, TokenModel::Op { code: spec_opcode_from_mnemonic(s.subrange(pos, j)) }))
    }
}

/// The four characters `load` at `pos`, whatever follows them.
pub open spec fn spec_opcode_load(s: Seq<char>, pos: int) -> Option<(int, TokenModel)> {
    if pos + 4 <= s.len() && s.subrange(pos, pos + 4) == "load"@ {
        Some((pos + 4, TokenModel::Op { code: Opcode::LOAD }))
    } else {
        None
    }
}

pub fn opcode(s: &str, pos: usize) -> (r: Option<(usize, Token)>)
    requires
        pos <= s@.len(),
    ensures
        match r {
            Some((e, tok)) => spec_opcode(s@, pos as int) == Some((e as int, tok@)) && pos < e
                <= s@.len(),
            None => spec_opcode(s@, pos as int) is None,
        },
{
    let j = scan::scan_alpha(s, pos);
    if j == pos {
        return None;
    }
    let name = scan::substring(s, pos, j);
    let code = Opcode::from_mnemonic(name.as_str());
    Some((j, Token::Op { code }))
}

pub fn opcode_load(s: &str, pos: usize) -> (r: Option<(usize, Token)>)
    requires
        pos <= s@.len(),
    ensures
        match r {
            Some((e, tok)) => spec_opcode_load(s@, pos as int) == Some((e as int, tok@)) && pos
                < e <= s@.len(),
            None => spec_opcode_load(s@, pos as int) is None,
        },
{
    proof {
        reveal_strlit("load");
    }
    let n = s.unicode_len();
    if n - pos >= 4 && s.get_char(pos) == 'l' && s.get_char(pos + 1) == 'o' && s.get_char(pos + 2)
        == 'a' && s.get_char(pos + 3) == 'd' {
        proof {
            assert(s@.subrange(pos as int, pos as int + 4) =~= "load"@);
        }
        Some((pos + 4, Token::Op { code: Opcode::LOAD }))
    } else {
        proof {
            if pos + 4 <= s@.len() {
                assert(s@.subrange(pos as int, pos as int + 4)[0] == s@[pos as int]);
                assert(s@.subrange(pos as int, pos as int + 4)[1] == s@[pos as int + 1]);
                assert(s@.subrange(pos as int, pos as int + 4)[2] == s@[pos as int + 2]);
                assert(s@.subrange(pos as int, pos as int + 4)[3] == s@[pos as int + 3]);
            }
        }
        None
    }
}

} // verus!
