//! The state behind the interactive shell: the machine it drives, the
//! command history, and the parser for lines of space-separated hex bytes.
//! The shell's own input and output loop lives outside the library.
use crate::assembler::scan;
use crate::vm::{spec_vm_init, Vm, VmModel};
use vstd::prelude::*;

verus! {

/// A hex line that does not parse: an empty piece, a stray character, or a
/// value over one byte.
#[derive(Debug, PartialEq, Eq, Structural, Clone, Copy)]
pub enum HexParseError {
    Invalid,
}

/// An ASCII hex digit, either case.
pub open spec fn is_hex_digit(c: char) -> bool {
    (48 <= c as u32 && c as u32 <= 57) || (97 <= c as u32 && c as u32 <= 102) || (65 <= c as u32
        && c as u32 <= 70)
}

/// The value of one hex digit.
pub open spec fn spec_hex_digit_val(c: char) -> int {
    if 48 <= c as u32 && c as u32 <= 57 {
        c as u32 - 48
    } else if 97 <= c as u32 && c as u32 <= 102 {
        c as u32 - 87
    } else {
        c as u32 - 55
    }
}

/// The value of the hex digit run `s[pos..end)`.
pub open spec fn spec_hex_value(s: Seq<char>, pos: int, end: int) -> int
    decreases end - pos,
{
    if pos < end {
        spec_hex_value(s, pos, end - 1) * 16 + spec_hex_digit_val(s[end - 1])
    } else {
        0
    }
}

pub proof fn lemma_hex_value_nonneg(s: Seq<char>, pos: int, end: int)
    requires
        0 <= pos <= end <= s.len(),
        forall|k: int| pos <= k < end ==> is_hex_digit(s[k]),
    ensures
        spec_hex_value(s, pos, end) >= 0,
    decreases end - pos,
{
    if pos < end {
        lemma_hex_value_nonneg(s, pos, end - 1);
    }
}

pub proof fn lemma_hex_value_monotone(s: Seq<char>, pos: int, mid: int, end: int)
    requires
        0 <= pos <= mid <= end <= s.len(),
        forall|k: int| pos <= k < end ==> is_hex_digit(s[k]),
    ensures
        spec_hex_value(s, pos, mid) <= spec_hex_value(s, pos, end),
    decreases end - mid,
{
    if mid < end {
        lemma_hex_value_monotone(s, pos, mid, end - 1);
        lemma_hex_value_nonneg(s, pos, end - 1);
    }
}

/// One piece `s[from..to)` as a byte: an optional leading plus sign, then
/// one or more hex digits, with a value that fits one byte.
pub open spec fn spec_parse_hex_byte(s: Seq<char>, from: int, to: int) -> Option<u8> {
    let start = if from < to && s[from] == '+' {
        from + 1
    } else {
        from
    };
    if to - start <= 0 {
        None
    } else if exists|k: int| start <= k < to && !is_hex_digit(s[k]) {
        None
    } else if spec_hex_value(s, start, to) > 255 {
        None
    } else {
        Some(spec_hex_value(s, start, to) as u8)
    }
}

/// A whole line from `pos` on: pieces separated by single spaces, each one
/// byte; one bad piece spoils the line. Splitting on every space keeps
/// empty pieces, so doubled spaces fail too.
pub open spec fn spec_parse_hex_from(s: Seq<char>, pos: int) -> Option<Seq<u8>>
    decreases s.len() - pos,
{
    let sp = scan::spec_find_char(s, pos, ' ');
    if sp >= s.len() {
        match spec_parse_hex_byte(s, pos, s.len() as int) {
            Some(b) => Some(seq![b]),
            None => None,
        }
    } else if sp < pos {
        None
    } else {
        match spec_parse_hex_byte(s, pos, sp) {
            Some(b) => match spec_parse_hex_from(s, sp + 1) {
                Some(rest) => Some(seq![b] + rest),
                None => None,
            },
            None => None,
        }
    }
}

/// A whole line of space-separated hex bytes.
pub open spec fn spec_parse_hex(s: Seq<char>) -> Option<Seq<u8>> {
    spec_parse_hex_from(s, 0)
}

fn hex_digit_val(c: char) -> (r: Option<u8>)
    ensures
        match r {
            Some(v) => is_hex_digit(c) && v == spec_hex_digit_val(c),
            None => !is_hex_digit(c),
        },
{
    let u = c as u32;
    if 48 <= u && u <= 57 {
        Some((u - 48) as u8)
    } else if 97 <= u && u <= 102 {
        Some((u - 87) as u8)
    } else if 65 <= u && u <= 70 {
        Some((u - 55) as u8)
    } else {
        None
    }
}

/// Parse the piece `s[from..to)` as one hex byte.
fn hex_byte_at(s: &str, from: usize, to: usize) -> (r: Option<u8>)
    requires
        from <= to <= s@.len(),
    ensures
        r == spec_parse_hex_byte(s@, from as int, to as int),
{
    let start: usize = if from < to && s.get_char(from) == '+' {
        from + 1
    } else {
        from
    };
    if to - start == 0 {
        return None;
    }
    let mut v: u32 = 0;
    let mut k = start;
    while k < to
        invariant
            from <= start <= k <= to <= s@.len(),
            start as int == (if (from as int) < to && s@[from as int] == '+' {
                from as int + 1
            } else {
                from as int
            }),
            to - start > 0,
            forall|j: int| start <= j < k ==> is_hex_digit(s@[j]),
            v == spec_hex_value(s@, start as int, k as int),
            v <= 255,
        decreases to - k,
    {
        let c = s.get_char(k);
        match hex_digit_val(c) {
            None => {
                return None;
            },
            Some(d) => {
                v = v * 16 + (d as u32);
                k = k + 1;
                if v > 255 {
                    proof {
                        if forall|j: int| start <= j < to ==> is_hex_digit(s@[j]) {
                            lemma_hex_value_monotone(s@, start as int, k as int, to as int);
                        }
                    }
                    return None;
                }
            },
        }
    }
    Some(v as u8)
}

/// The mathematical shape of the shell's state.
#[verifier::ext_equal]
pub struct ReplModel {
    pub vm: VmModel,
    pub command_buffer: Seq<Seq<char>>,
}

/// What the interactive shell keeps between lines: its machine and the
/// history of entered commands.
pub struct Repl {
    pub vm: Vm,
    pub command_buffer: Vec<String>,
}

impl View for Repl {
    type V = ReplModel;

    open spec fn view(&self) -> ReplModel {
        ReplModel {
            vm: self.vm@,
            command_buffer: self.command_buffer@.map_values(|s: String| s@),
        }
    }
}

impl Default for Repl {
    fn default() -> (r: Self)
        ensures
            r@.vm == spec_vm_init(),
            r@.command_buffer.len() == 0,
    {
        Repl::new()
    }
}

impl Repl {
    pub fn new() -> (r: Repl)
        ensures
            r@.vm == spec_vm_init(),
            r@.command_buffer.len() == 0,
    {
        let r = Repl { vm: Vm::new(), command_buffer: Vec::new() };
        proof {
            assert(r@.command_buffer =~= Seq::<Seq<char>>::empty());
        }
        r
    }

    /// Remember one entered command.
    pub fn record_command(&mut self, line: String)
        ensures
            final(self)@ == (ReplModel {
                command_buffer: old(self)@.command_buffer.push(line@),
                ..old(self)@
            }),
    {
        self.command_buffer.push(line);
        proof {
            assert(self@.command_buffer =~= old(self)@.command_buffer.push(
                self.command_buffer@[self.command_buffer@.len() - 1]@,
            ));
            assert(self@ =~= (ReplModel {
                command_buffer: old(self)@.command_buffer.push(
                    self.command_buffer@[self.command_buffer@.len() - 1]@,
                ),
                ..old(self)@
            }));
        }
    }

    /// A line of space-separated hex bytes, as the bytes it names.
    pub fn parse_hex(&mut self, i: &str) -> (r: Result<Vec<u8>, HexParseError>)
        ensures
            final(self)@ == old(self)@,
            match r {
                Ok(v) => spec_parse_hex(i@) == Some(v@),
                Err(_) => spec_parse_hex(i@) is None,
            },
    {
        let n = i.unicode_len();
        let mut results: Vec<u8> = Vec::new();
        let mut pos: usize = 0;
        loop
            invariant
                pos <= n,
                n == i@.len(),
                self@ == old(self)@,
                match spec_parse_hex_from(i@, pos as int) {
                    Some(rest) => spec_parse_hex(i@) == Some(results@ + rest),
                    None => spec_parse_hex(i@) is None,
                },
            decreases n - pos,
        {
            let sp = scan::find_char(i, pos, ' ');
            match hex_byte_at(i, pos, sp) {
                None => {
                    return Err(HexParseError::Invalid);
                },
                Some(b) => {
                    let ghost pre = results@;
                    results.push(b);
                    if sp >= n {
                        proof {
                            assert(pre + seq![b] =~= results@);
                        }
                        return Ok(results);
                    }
                    proof {
                        match spec_parse_hex_from(i@, sp as int + 1) {
                            Some(rest) => {
                                assert(pre + (seq![b] + rest) =~= results@ + rest);
                            },
                            None => {},
                        }
                    }
                    pos = sp + 1;
                },
            }
        }
    }
}

} // verus!
