//! Parser for register references (`$N`).
use crate::assembler::scan;
use crate::assembler::{Token, TokenModel};
use vstd::prelude::*;

verus! {

/// A register reference at `pos`: optional whitespace, `$`, optional
/// whitespace, a nonempty digit run, then any whitespace. A value over 255
/// does not fit the one operand byte and fails the parse.
pub open spec fn spec_register(s: Seq<char>, pos: int) -> Option<(int, TokenModel)> {
    let i = scan::spec_skip_space(s, pos);
    if i < s.len() && s[i] == '$' {
        let j = scan::spec_skip_space(s, i + 1);
        let k = scan::spec_scan_digits(s, j);
        if k == j {
            None
        } else {
            let v = scan::spec_digits_value(s, j, k);
            if v > 255 {
                None
            } else {
                let e = scan::spec_skip_space(s, k);
                Some((e, TokenModel::Register { reg: v as u8 }))
            }
        }
    } else {
        None
    }
}

pub fn register(s: &str, pos: usize) -> (r: Option<(usize, Token)>)
    requires
        pos <= s@.len(),
    ensures
        match r {
            Some((e, tok)) => spec_register(s@, pos as int) == Some((e as int, tok@)) && pos <= e
                <= s@.len(),
            None => spec_register(s@, pos as int) is None,
        },
{
    let i = scan::skip_space(s, pos);
    let n = s.unicode_len();
    if i < n && s.get_char(i) == '$' {
        let j = scan::skip_space(s, i + 1);
        let k = scan::scan_digits(s, j);
        if k == j {
            return None;
        }
        proof {
            scan::lemma_scan_digits_chars(s@, j as int);
            scan::lemma_digits_value_nonneg(s@, j as int, k as int);
        }
        match scan::digits_value_capped(s, j, k, 255) {
            Some(v) => {
                let e = scan::skip_space(s, k);
                Some((e, Token::Register { reg: v as u8 }))
            },
            None => None,
        }
    } else {
        None
    }
}

} // verus!
