//! Parsers for the operand forms: integer immediates (`#N`), string
//! literals (`'...'`), and the combined `operand` that tries the
//! alternatives in the grammar's fixed order.
use crate::assembler::label_parsers;
use crate::assembler::register_parser;
use crate::assembler::scan;
use crate::assembler::{Token, TokenModel};
use vstd::prelude::*;

verus! {

/// An integer immediate at `pos`: optional whitespace, `#`, optional
/// whitespace, a nonempty digit run, then any whitespace. A value over
/// `i32::MAX` fails the parse; the grammar has no negative immediates.
pub open spec fn spec_interger_operand(s: Seq<char>, pos: int) -> Option<(int, TokenModel)> {
    let i = scan::spec_skip_space(s, pos);
    if i < s.len() && s[i] == '#' {
        let j = scan::spec_skip_space(s, i + 1);
        let k = scan::spec_scan_digits(s, j);
        if k == j {
            None
        } else {
            let v = scan::spec_digits_value(s, j, k);
            if v > 0x7fff_ffff {
                None
            } else {
                let e = scan::spec_skip_space(s, k);
                Some((e, TokenModel::IntergerOperand { val: v as i32 }))
            }
        }
    } else {
        None
    }
}

/// A string literal at `pos`: an opening quote, the characters up to the
/// next quote, and that closing quote; nothing is skipped around it.
pub open spec fn spec_irstring(s: Seq<char>, pos: int) -> Option<(int, TokenModel)> {
    if pos < s.len() && s[pos] == '\'' {
        let q = scan::spec_find_char(s, pos + 1, '\'');
        if q < s.len() {
            Some((q + 1, TokenModel::IrString { name: s.subrange(pos + 1, q) }))
        } else {
            None
        }
    } else {
        None
    }
}

/// An operand: the first of integer immediate, label usage, register and
/// string literal that matches, in that order.
pub open spec fn spec_operand(s: Seq<char>, pos: int) -> Option<(int, TokenModel)> {
    if spec_interger_operand(s, pos) is Some {
        spec_interger_operand(s, pos)
    } else if label_parsers::spec_label_usage(s, pos) is Some {
        label_parsers::spec_label_usage(s, pos)
    } else if register_parser::spec_register(s, pos) is Some {
        register_parser::spec_register(s, pos)
    } else {
        spec_irstring(s, pos)
    }
}

pub fn interger_operand(s: &str, pos: usize) -> (r: Option<(usize, Token)>)
    requires
        pos <= s@.len(),
    ensures
        match r {
            Some((e, tok)) => spec_interger_operand(s@, pos as int) == Some((e as int, tok@))
                && pos <= e <= s@.len(),
            None => spec_interger_operand(s@, pos as int) is None,
        },
{
    let i = scan::skip_space(s, pos);
    let n = s.unicode_len();
    if i < n && s.get_char(i) == '#' {
        let j = scan::skip_space(s, i + 1);
        let k = scan::scan_digits(s, j);
        if k == j {
            return None;
        }
        proof {
            scan::lemma_scan_digits_chars(s@, j as int);
            scan::lemma_digits_value_nonneg(s@, j as int, k as int);
        }
        match scan::digits_value_capped(s, j, k, 0x7fff_ffff) {
            Some(v) => {
                let e = scan::skip_space(s, k);
                Some((e, Token::IntergerOperand { val: v as i32 }))
            },
            None => None,
        }
    } else {
        None
    }
}

pub fn irstring(s: &str, pos: usize) -> (r: Option<(usize, Token)>)
    requires
        pos <= s@.len(),
    ensures
        match r {
            Some((e, tok)) => spec_irstring(s@, pos as int) == Some((e as int, tok@)) && pos < e
                <= s@.len(),
            None => spec_irstring(s@, pos as int) is None,
        },
{
    let n = s.unicode_len();
    if pos < n && s.get_char(pos) == '\'' {
        let q = scan::find_char(s, pos + 1, '\'');
        if q < n {
            let name = scan::substring(s, pos + 1, q);
            Some((q + 1, Token::IrString { name }))
        } else {
            None
        }
    } else {
        None
    }
}

pub fn operand(s: &str, pos: usize) -> (r: Option<(usize, Token)>)
    requires
        pos <= s@.len(),
    ensures
        match r {
            Some((e, tok)) => spec_operand(s@, pos as int) == Some((e as int, tok@)) && pos < e
                <= s@.len(),
            None => spec_operand(s@, pos as int) is None,
        },
{
    let r1 = interger_operand(s, pos);
    if r1.is_some() {
        proof {
            lemma_interger_operand_advances(s@, pos as int);
        }
        return r1;
    }
    let r2 = label_parsers::label_usage(s, pos);
    if r2.is_some() {
        proof {
            lemma_label_usage_advances(s@, pos as int);
        }
        return r2;
    }
    let r3 = register_parser::register(s, pos);
    if r3.is_some() {
        proof {
            lemma_register_advances(s@, pos as int);
        }
        return r3;
    }
    irstring(s, pos)
}

/// A matched integer immediate consumes at least one character.
pub proof fn lemma_interger_operand_advances(s: Seq<char>, pos: int)
    requires
        0 <= pos <= s.len(),
    ensures
        match spec_interger_operand(s, pos) {
            Some((e, _)) => pos < e <= s.len(),
            None => true,
        },
{
    scan::lemma_skip_space_bounds(s, pos);
    let i = scan::spec_skip_space(s, pos);
    if i < s.len() && s[i] == '#' {
        scan::lemma_skip_space_bounds(s, i + 1);
        let j = scan::spec_skip_space(s, i + 1);
        scan::lemma_scan_digits_bounds(s, j);
        let k = scan::spec_scan_digits(s, j);
        if k != j {
            scan::lemma_skip_space_bounds(s, k);
        }
    }
}

/// A matched label usage consumes at least one character.
pub proof fn lemma_label_usage_advances(s: Seq<char>, pos: int)
    requires
        0 <= pos <= s.len(),
    ensures
        match label_parsers::spec_label_usage(s, pos) {
            Some((e, _)) => pos < e <= s.len(),
            None => true,
        },
{
    scan::lemma_skip_space_bounds(s, pos);
    let i = scan::spec_skip_space(s, pos);
    if i < s.len() && s[i] == '@' {
        scan::lemma_skip_space_bounds(s, i + 1);
        let j = scan::spec_skip_space(s, i + 1);
        scan::lemma_scan_alnum_bounds(s, j);
        let k = scan::spec_scan_alnum(s, j);
        if k != j {
            scan::lemma_skip_space_bounds(s, k);
        }
    }
}

/// A matched register reference consumes at least one character.
pub proof fn lemma_register_advances(s: Seq<char>, pos: int)
    requires
        0 <= pos <= s.len(),
    ensures
        match register_parser::spec_register(s, pos) {
            Some((e, _)) => pos < e <= s.len(),
            None => true,
        },
{
    scan::lemma_skip_space_bounds(s, pos);
    let i = scan::spec_skip_space(s, pos);
    if i < s.len() && s[i] == '$' {
        scan::lemma_skip_space_bounds(s, i + 1);
        let j = scan::spec_skip_space(s, i + 1);
        scan::lemma_scan_digits_bounds(s, j);
        let k = scan::spec_scan_digits(s, j);
        if k != j {
            scan::lemma_skip_space_bounds(s, k);
        }
    }
}

} // verus!
