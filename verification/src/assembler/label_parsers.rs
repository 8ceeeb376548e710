//! Parsers for label declarations (`name:`) and label usages (`@name`).
//! Both skip whitespace around their parts and after themselves.
use crate::assembler::scan;
use crate::assembler::{Token, TokenModel};
use vstd::prelude::*;

verus! {

/// A label declaration at `pos`: optional whitespace, a nonempty
/// alphanumeric name, optional whitespace, a colon, then any whitespace.
/// Yields the position after the match and the token.
pub open spec fn spec_label_declaration(s: Seq<char>, pos: int) -> Option<(int, TokenModel)> {
    let i = scan::spec_skip_space(s, pos);
    let j = scan::spec_scan_alnum(s, i);
    if j == i {
        None
    } else {
        let k = scan::spec_skip_space(s, j);
        if k < s.len() && s[k] == ':' {
            let e = scan::spec_skip_space(s, k + 1);
            Some((e, TokenModel::LabelDeclaration { name: s.subrange(i, j) }))
        } else {
            None
        }
    }
}

/// A label usage at `pos`: optional whitespace, `@`, optional whitespace, a
/// nonempty alphanumeric name, then any whitespace.
pub open spec fn spec_label_usage(s: Seq<char>, pos: int) -> Option<(int, TokenModel)> {
    let i = scan::spec_skip_space(s, pos);
    if i < s.len() && s[i] == '@' {
        let j = scan::spec_skip_space(s, i + 1);
        let k = scan::spec_scan_alnum(s, j);
        if k == j {
            None
        } else {
            let e = scan::spec_skip_space(s, k);
            Some((e, TokenModel::LabelUsage { name: s.subrange(j, k) }))
        }
    } else {
        None
    }
}

pub fn label_declaration(s: &str, pos: usize) -> (r: Option<(usize, Token)>)
    requires
        pos <= s@.len(),
    ensures
        match r {
            Some((e, tok)) => spec_label_declaration(s@, pos as int) == Some((e as int, tok@))
                && pos <= e <= s@.len(),
            None => spec_label_declaration(s@, pos as int) is None,
        },
{
    let i = scan::skip_space(s, pos);
    let j = scan::scan_alnum(s, i);
    if j == i {
        return None;
    }
    let k = scan::skip_space(s, j);
    let n = s.unicode_len();
    if k < n && s.get_char(k) == ':' {
        let e = scan::skip_space(s, k + 1);
        let name = scan::substring(s, i, j);
        Some((e, Token::LabelDeclaration { name }))
    } else {
        None
    }
}

pub fn label_usage(s: &str, pos: usize) -> (r: Option<(usize, Token)>)
    requires
        pos <= s@.len(),
    ensures
        match r {
            Some((e, tok)) => spec_label_usage(s@, pos as int) == Some((e as int, tok@)) && pos
                <= e <= s@.len(),
            None => spec_label_usage(s@, pos as int) is None,
        },
{
    let i = scan::skip_space(s, pos);
    let n = s.unicode_len();
    if i < n && s.get_char(i) == '@' {
        let j = scan::skip_space(s, i + 1);
        let k = scan::scan_alnum(s, j);
        if k == j {
            return None;
        }
        let e = scan::skip_space(s, k);
        let name = scan::substring(s, j, k);
        Some((e, Token::LabelUsage { name }))
    } else {
        None
    }
}

} // verus!
