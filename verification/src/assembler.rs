//! The assembler: tokens, the symbol table, the grammar of the assembly
//! language, and the two-pass driver that turns a parsed program into a
//! binary image.
use crate::instruction::Opcode;
use vstd::prelude::*;

pub mod base_assembler;
pub mod directive_parsers;
pub mod instruction_parser;
pub mod label_parsers;
pub mod opcode_parser;
pub mod operand_parser;
pub mod program_parser;
pub mod register_parser;
pub mod scan;

verus! {

/// Byte length of the image header.
pub const PIE_HEADER_LENGTH: usize = 64;

/// The four magic bytes that open every image header.
pub open spec fn spec_pie_prefix() -> Seq<u8> {
    seq![45u8, 50u8, 49u8, 45u8]
}

/// The magic bytes as a vector, for writers of headers.
pub fn pie_header_prefix() -> (r: Vec<u8>)
    ensures
        r@ == spec_pie_prefix(),
{
    let mut v: Vec<u8> = Vec::new();
    v.push(45);
    v.push(50);
    v.push(49);
    v.push(45);
    proof {
        assert(v@ =~= spec_pie_prefix());
    }
    v
}

/// One lexical element of the assembly language.
#[derive(Debug, PartialEq, Clone)]
pub enum Token {
    Op { code: Opcode },
    Register { reg: u8 },
    IntergerOperand { val: i32 },
    LabelDeclaration { name: String },
    LabelUsage { name: String },
    Directive { name: String },
    IrString { name: String },
}

/// The mathematical shape of a token: names are plain character sequences.
pub enum TokenModel {
    Op { code: Opcode },
    Register { reg: u8 },
    IntergerOperand { val: i32 },
    LabelDeclaration { name: Seq<char> },
    LabelUsage { name: Seq<char> },
    Directive { name: Seq<char> },
    IrString { name: Seq<char> },
}

impl View for Token {
    type V = TokenModel;

    open spec fn view(&self) -> TokenModel {
        match self {
            Token::Op { code } => TokenModel::Op { code: *code },
            Token::Register { reg } => TokenModel::Register { reg: *reg },
            Token::IntergerOperand { val } => TokenModel::IntergerOperand { val: *val },
            Token::LabelDeclaration { name } => TokenModel::LabelDeclaration { name: name@ },
            Token::LabelUsage { name } => TokenModel::LabelUsage { name: name@ },
            Token::Directive { name } => TokenModel::Directive { name: name@ },
            Token::IrString { name } => TokenModel::IrString { name: name@ },
        }
    }
}

/// The kinds a symbol can have; labels are the only kind so far.
#[derive(Debug, PartialEq, Eq, Structural, Clone, Copy)]
pub enum SymbolType {
    Label,
}

/// A named location: a label together with the byte offset it was bound to,
/// `None` while it is declared but not yet bound.
#[derive(Debug, Clone)]
pub struct Symbol {
    pub name: String,
    pub symbol_type: SymbolType,
    pub offset: Option<u32>,
}

/// The mathematical shape of a symbol.
pub struct SymbolModel {
    pub name: Seq<char>,
    pub symbol_type: SymbolType,
    pub offset: Option<u32>,
}

impl View for Symbol {
    type V = SymbolModel;

    open spec fn view(&self) -> SymbolModel {
        SymbolModel { name: self.name@, symbol_type: self.symbol_type, offset: self.offset }
    }
}

impl Symbol {
    pub fn new(name: String, symbol_type: SymbolType) -> (r: Symbol)
        ensures
            r@ == (SymbolModel { name: name@, symbol_type, offset: None::<u32> }),
    {
        Symbol { name, symbol_type, offset: None }
    }
}

/// The index of the first symbol called `name`, or `-1` when there is none.
pub open spec fn spec_first_symbol_index(syms: Seq<SymbolModel>, name: Seq<char>) -> int
    decreases syms.len(),
{
    if syms.len() == 0 {
        -1
    } else if syms[0].name == name {
        0
    } else {
        let rest = spec_first_symbol_index(syms.drop_first(), name);
        if rest < 0 {
            -1
        } else {
            rest + 1
        }
    }
}

/// Whether some symbol is called `name`.
pub open spec fn spec_has_symbol(syms: Seq<SymbolModel>, name: Seq<char>) -> bool {
    spec_first_symbol_index(syms, name) >= 0
}

/// The offset of the first symbol called `name`: `None` when the name is
/// absent or the symbol is not yet bound.
pub open spec fn spec_symbol_value(syms: Seq<SymbolModel>, name: Seq<char>) -> Option<u32> {
    let i = spec_first_symbol_index(syms, name);
    if i >= 0 {
        syms[i].offset
    } else {
        None
    }
}

pub proof fn lemma_first_symbol_index_props(syms: Seq<SymbolModel>, name: Seq<char>)
    ensures
        spec_first_symbol_index(syms, name) < 0 ==> forall|k: int|
            0 <= k < syms.len() ==> syms[k].name != name,
        spec_first_symbol_index(syms, name) >= 0 ==> {
            let i = spec_first_symbol_index(syms, name);
            &&& i < syms.len()
            &&& syms[i].name == name
            &&& forall|k: int| 0 <= k < i ==> syms[k].name != name
        },
    decreases syms.len(),
{
    if syms.len() > 0 && syms[0].name != name {
        lemma_first_symbol_index_props(syms.drop_first(), name);
        let rest = spec_first_symbol_index(syms.drop_first(), name);
        if rest < 0 {
            assert forall|k: int| 0 <= k < syms.len() implies syms[k].name != name by {
                if k >= 1 {
                    assert(syms[k] == syms.drop_first()[k - 1]);
                }
            }
        } else {
            assert(syms[rest + 1] == syms.drop_first()[rest]);
            assert forall|k: int| 0 <= k < rest + 1 implies syms[k].name != name by {
                if k >= 1 {
                    assert(syms[k] == syms.drop_first()[k - 1]);
                }
            }
        }
    }
}

pub proof fn lemma_first_symbol_index_is(syms: Seq<SymbolModel>, name: Seq<char>, i: int)
    requires
        0 <= i < syms.len(),
        syms[i].name == name,
        forall|k: int| 0 <= k < i ==> syms[k].name != name,
    ensures
        spec_first_symbol_index(syms, name) == i,
    decreases syms.len(),
{
    if i > 0 {
        assert(syms.drop_first()[i - 1] == syms[i]);
        assert(forall|k: int| 0 <= k < i - 1 ==> syms.drop_first()[k] == syms[k + 1]);
        lemma_first_symbol_index_is(syms.drop_first(), name, i - 1);
    }
}

/// The write-once name-to-offset map that both assembly passes share.
#[derive(Debug)]
pub struct SymbolTable {
    pub symbols: Vec<Symbol>,
}

impl View for SymbolTable {
    type V = Seq<SymbolModel>;

    open spec fn view(&self) -> Seq<SymbolModel> {
        self.symbols@.map_values(|s: Symbol| s@)
    }
}

impl Default for SymbolTable {
    fn default() -> (r: Self)
        ensures
            r@ == Seq::<SymbolModel>::empty(),
    {
        SymbolTable::new()
    }
}

impl SymbolTable {
    pub fn new() -> (r: SymbolTable)
        ensures
            r@ == Seq::<SymbolModel>::empty(),
    {
        let t = SymbolTable { symbols: Vec::new() };
        proof {
            assert(t@ =~= Seq::<SymbolModel>::empty());
        }
        t
    }

    /// Append a symbol; no uniqueness is enforced here, callers check first.
    pub fn add_symbols(&mut self, symbol: Symbol)
        ensures
            final(self)@ == old(self)@.push(symbol@),
    {
        let ghost pre = self@;
        self.symbols.push(symbol);
        proof {
            assert(self@ =~= pre.push(self.symbols@[self.symbols@.len() - 1]@));
        }
    }

    /// The offset of the first symbol with this name, `None` when the name is
    /// absent or that symbol is unbound.
    pub fn symbol_value(&self, symbol: &str) -> (r: Option<u32>)
        ensures
            r == spec_symbol_value(self@, symbol@),
    {
        let n = self.symbols.len();
        let mut i: usize = 0;
        while i < n
            invariant
                0 <= i <= n,
                n == self.symbols.len(),
                forall|k: int| 0 <= k < i ==> self@[k].name != symbol@,
            decreases n - i,
        {
            if scan::str_eq(self.symbols[i].name.as_str(), symbol) {
                proof {
                    lemma_first_symbol_index_is(self@, symbol@, i as int);
                }
                return self.symbols[i].offset;
            }
            i = i + 1;
        }
        proof {
            lemma_first_symbol_index_props(self@, symbol@);
        }
        None
    }

    /// Whether a symbol with this name exists at all.
    pub fn has_symbol(&self, symbol: &str) -> (r: bool)
        ensures
            r == spec_has_symbol(self@, symbol@),
    {
        let n = self.symbols.len();
        let mut i: usize = 0;
        while i < n
            invariant
                0 <= i <= n,
                n == self.symbols.len(),
                forall|k: int| 0 <= k < i ==> self@[k].name != symbol@,
            decreases n - i,
        {
            if scan::str_eq(self.symbols[i].name.as_str(), symbol) {
                proof {
                    lemma_first_symbol_index_is(self@, symbol@, i as int);
                }
                return true;
            }
            i = i + 1;
        }
        proof {
            lemma_first_symbol_index_props(self@, symbol@);
        }
        false
    }

    /// Bind the first symbol with this name to `offset`; a missing name
    /// leaves the table unchanged.
    pub fn set_symbol_offset(&mut self, symbol: &str, offset: u32)
        ensures
            final(self)@ == spec_set_symbol_offset(old(self)@, symbol@, offset),
    {
        let ghost pre = self@;
        let n = self.symbols.len();
        let mut i: usize = 0;
        while i < n
            invariant
                0 <= i <= n,
                n == self.symbols.len(),
                pre == old(self)@,
                self@ == pre,
                forall|k: int| 0 <= k < i ==> self@[k].name != symbol@,
            decreases n - i,
        {
            if scan::str_eq(self.symbols[i].name.as_str(), symbol) {
                proof {
                    assert(self@[i as int] == self.symbols@[i as int]@);
                    lemma_first_symbol_index_is(self@, symbol@, i as int);
                }
                let name = self.symbols[i].name.clone();
                let ty = self.symbols[i].symbol_type;
                self.symbols.set(i, Symbol { name, symbol_type: ty, offset: Some(offset) });
                proof {
                    assert(self@ =~= pre.update(
                        i as int,
                        SymbolModel {
                            name: pre[i as int].name,
                            symbol_type: pre[i as int].symbol_type,
                            offset: Some(offset),
                        },
                    ));
                    assert(spec_first_symbol_index(pre, symbol@) == i as int);
                    assert(self@ == spec_set_symbol_offset(pre, symbol@, offset));
                }
                return ;
            }
            i = i + 1;
        }
        proof {
            lemma_first_symbol_index_props(self@, symbol@);
        }
    }
}

/// What binding a name does to the table: the first symbol of that name gets
/// the offset, an absent name changes nothing.
pub open spec fn spec_set_symbol_offset(
    syms: Seq<SymbolModel>,
    name: Seq<char>,
    offset: u32,
) -> Seq<SymbolModel> {
    let i = spec_first_symbol_index(syms, name);
    if i >= 0 {
        syms.update(
            i,
            SymbolModel { name: syms[i].name, symbol_type: syms[i].symbol_type, offset: Some(offset) },
        )
    } else {
        syms
    }
}

/// Resolution is a function of the table and the name alone, so resolving the
/// same name twice yields the same offset.
pub proof fn lemma_resolve_idempotent(
    syms: Seq<SymbolModel>,
    name: Seq<char>,
    r1: Option<u32>,
    r2: Option<u32>,
)
    requires
        r1 == spec_symbol_value(syms, name),
        r2 == spec_symbol_value(syms, name),
    ensures
        r1 == r2,
{
}

} // verus!
