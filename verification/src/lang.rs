//! Measurement language: registers, scopes, and the compiler that turns a
//! measurement source text into bytecode for the datapath's register machine.

use vstd::prelude::*;

verus! {

/// Type of a value held in a register of the datapath's register machine.
#[derive(Debug, Clone, Copy, PartialEq, Eq, Structural)]
pub enum Type {
    Num,
    Bool,
}

/// A named storage cell of the register machine.
///
/// * `Perm(idx, ty)`: indexed slot materialized in measurement reports.
/// * `Implicit(idx, ty)`: datapath-provided implicit variable.
/// * `Tmp(idx)`: compiler-allocated scratch register.
/// * `Const(v)`: immediate constant.
#[derive(Debug, Clone, Copy, PartialEq, Eq, Structural)]
pub enum Reg {
    Const(u32),
    Perm(u32, Type),
    Implicit(u32, Type),
    Tmp(u32),
}

/// On the wire a register is 1 discriminant byte plus a 4-byte LE payload.
/// The payload types are not carried, so only `Num`-typed registers survive
/// a round trip; the compiler only ever emits such registers.
pub open spec fn reg_wire_ok(r: Reg) -> bool {
    match r {
        Reg::Const(_) => true,
        Reg::Perm(_, t) => t == Type::Num,
        Reg::Implicit(_, t) => t == Type::Num,
        Reg::Tmp(_) => true,
    }
}

/// Five-byte wire image of a register.
pub open spec fn reg_bytes(r: Reg) -> Seq<u8> {
    match r {
        Reg::Const(v) => seq![0u8] + crate::serialize::u32_le(v),
        Reg::Perm(i, _) => seq![1u8] + crate::serialize::u32_le(i),
        Reg::Implicit(i, _) => seq![2u8] + crate::serialize::u32_le(i),
        Reg::Tmp(i) => seq![3u8] + crate::serialize::u32_le(i),
    }
}

/// The register read back from five wire bytes; `None` on an unknown
/// discriminant.
pub open spec fn reg_from(s: Seq<u8>) -> Option<Reg>
    recommends
        s.len() == 5,
{
    let v = crate::serialize::u32_from(s.subrange(1, 5));
    if s[0] == 0u8 {
        Some(Reg::Const(v))
    } else if s[0] == 1u8 {
        Some(Reg::Perm(v, Type::Num))
    } else if s[0] == 2u8 {
        Some(Reg::Implicit(v, Type::Num))
    } else if s[0] == 3u8 {
        Some(Reg::Tmp(v))
    } else {
        None
    }
}

/// Parsing the wire image of a wire-representable register recovers it.
pub proof fn lemma_reg_round_trip(r: Reg)
    requires
        reg_wire_ok(r),
    ensures
        reg_from(reg_bytes(r)) == Some(r),
{
    match r {
        Reg::Const(v) => {
            assert(reg_bytes(r).subrange(1, 5) =~= crate::serialize::u32_le(v));
            crate::serialize::lemma_u32_round_trip(v);
        },
        Reg::Perm(i, _) => {
            assert(reg_bytes(r).subrange(1, 5) =~= crate::serialize::u32_le(i));
            crate::serialize::lemma_u32_round_trip(i);
        },
        Reg::Implicit(i, _) => {
            assert(reg_bytes(r).subrange(1, 5) =~= crate::serialize::u32_le(i));
            crate::serialize::lemma_u32_round_trip(i);
        },
        Reg::Tmp(i) => {
            assert(reg_bytes(r).subrange(1, 5) =~= crate::serialize::u32_le(i));
            crate::serialize::lemma_u32_round_trip(i);
        },
    }
}

/// Append the five wire bytes of `r`.
pub fn push_reg(buf: &mut Vec<u8>, r: &Reg)
    ensures
        final(buf)@ == old(buf)@ + reg_bytes(*r),
{
    match r {
        Reg::Const(v) => {
            buf.push(0u8);
            crate::serialize::push_u32(buf, *v);
        },
        Reg::Perm(i, _) => {
            buf.push(1u8);
            crate::serialize::push_u32(buf, *i);
        },
        Reg::Implicit(i, _) => {
            buf.push(2u8);
            crate::serialize::push_u32(buf, *i);
        },
        Reg::Tmp(i) => {
            buf.push(3u8);
            crate::serialize::push_u32(buf, *i);
        },
    }
    proof {
        assert(buf@ =~= old(buf)@ + reg_bytes(*r));
    }
}

/// Read the register stored at `buf[i..i + 5]`; `None` on an unknown
/// discriminant byte.
pub fn read_reg(buf: &[u8], i: usize) -> (r: Option<Reg>)
    requires
        i + 5 <= buf@.len(),
    ensures
        r == reg_from(buf@.subrange(i as int, i + 5)),
{
    let d = buf[i];
    let v = crate::serialize::read_u32(buf, i + 1);
    proof {
        let s = buf@.subrange(i as int, i + 5);
        assert(s[0] == buf@[i as int]);
        assert(s.subrange(1, 5) =~= buf@.subrange(i + 1, i + 5));
    }
    if d == 0 {
        Some(Reg::Const(v))
    } else if d == 1 {
        Some(Reg::Perm(v, Type::Num))
    } else if d == 2 {
        Some(Reg::Implicit(v, Type::Num))
    } else if d == 3 {
        Some(Reg::Tmp(v))
    } else {
        None
    }
}

/// Operation of one register-machine instruction. `Bind` stores its left
/// operand into the result register; the rest combine both operands.
#[derive(Debug, Clone, Copy, PartialEq, Eq, Structural)]
pub enum Op {
    Bind,
    Add,
    Sub,
    Mul,
    Max,
    Min,
    Lt,
    Gt,
}

/// Wire byte of an operation.
pub open spec fn op_byte(op: Op) -> u8 {
    match op {
        Op::Bind => 0u8,
        Op::Add => 1u8,
        Op::Sub => 2u8,
        Op::Mul => 3u8,
        Op::Max => 4u8,
        Op::Min => 5u8,
        Op::Lt => 6u8,
        Op::Gt => 7u8,
    }
}

/// The operation read back from its wire byte; `None` on an unknown opcode.
pub open spec fn op_from(b: u8) -> Option<Op> {
    if b == 0u8 {
        Some(Op::Bind)
    } else if b == 1u8 {
        Some(Op::Add)
    } else if b == 2u8 {
        Some(Op::Sub)
    } else if b == 3u8 {
        Some(Op::Mul)
    } else if b == 4u8 {
        Some(Op::Max)
    } else if b == 5u8 {
        Some(Op::Min)
    } else if b == 6u8 {
        Some(Op::Lt)
    } else if b == 7u8 {
        Some(Op::Gt)
    } else {
        None
    }
}

/// One fixed-width instruction: an opcode byte followed by the result, left
/// and right registers, 16 bytes in all on the wire.
#[derive(Debug, Clone, Copy, PartialEq, Eq, Structural)]
pub struct Instr {
    pub op: Op,
    pub res: Reg,
    pub left: Reg,
    pub right: Reg,
}

/// All three registers of the instruction survive the wire encoding.
pub open spec fn instr_wire_ok(ins: Instr) -> bool {
    reg_wire_ok(ins.res) && reg_wire_ok(ins.left) && reg_wire_ok(ins.right)
}

/// Sixteen-byte wire image of an instruction.
pub open spec fn instr_bytes(ins: Instr) -> Seq<u8> {
    seq![op_byte(ins.op)] + reg_bytes(ins.res) + reg_bytes(ins.left) + reg_bytes(ins.right)
}

/// The instruction read back from sixteen wire bytes; `None` on an unknown
/// opcode or register discriminant.
pub open spec fn instr_from(s: Seq<u8>) -> Option<Instr>
    recommends
        s.len() == 16,
{
    match (op_from(s[0]), reg_from(s.subrange(1, 6)), reg_from(s.subrange(6, 11)), reg_from(
        s.subrange(11, 16),
    )) {
        (Some(op), Some(res), Some(left), Some(right)) => Some(
            Instr { op, res, left, right },
        ),
        _ => None,
    }
}

/// Parsing the wire image of a wire-representable instruction recovers it.
pub proof fn lemma_instr_round_trip(ins: Instr)
    requires
        instr_wire_ok(ins),
    ensures
        instr_from(instr_bytes(ins)) == Some(ins),
{
    let s = instr_bytes(ins);
    assert(s.subrange(1, 6) =~= reg_bytes(ins.res));
    assert(s.subrange(6, 11) =~= reg_bytes(ins.left));
    assert(s.subrange(11, 16) =~= reg_bytes(ins.right));
    lemma_reg_round_trip(ins.res);
    lemma_reg_round_trip(ins.left);
    lemma_reg_round_trip(ins.right);
}

/// Append the sixteen wire bytes of `ins`.
pub fn push_instr(buf: &mut Vec<u8>, ins: &Instr)
    ensures
        final(buf)@ == old(buf)@ + instr_bytes(*ins),
{
    let b: u8 = match ins.op {
        Op::Bind => 0,
        Op::Add => 1,
        Op::Sub => 2,
        Op::Mul => 3,
        Op::Max => 4,
        Op::Min => 5,
        Op::Lt => 6,
        Op::Gt => 7,
    };
    buf.push(b);
    push_reg(buf, &ins.res);
    push_reg(buf, &ins.left);
    push_reg(buf, &ins.right);
    proof {
        assert(buf@ =~= old(buf)@ + instr_bytes(*ins));
    }
}

/// Read the instruction stored at `buf[i..i + 16]`.
pub fn read_instr(buf: &[u8], i: usize) -> (r: Option<Instr>)
    requires
        i + 16 <= buf@.len(),
    ensures
        r == instr_from(buf@.subrange(i as int, i + 16)),
{
    proof {
        let s = buf@.subrange(i as int, i + 16);
        assert(s[0] == buf@[i as int]);
        assert(s.subrange(1, 6) =~= buf@.subrange(i + 1, i + 6));
        assert(s.subrange(6, 11) =~= buf@.subrange(i + 6, i + 11));
        assert(s.subrange(11, 16) =~= buf@.subrange(i + 11, i + 16));
    }
    let b = buf[i];
    let op = if b == 0 {
        Op::Bind
    } else if b == 1 {
        Op::Add
    } else if b == 2 {
        Op::Sub
    } else if b == 3 {
        Op::Mul
    } else if b == 4 {
        Op::Max
    } else if b == 5 {
        Op::Min
    } else if b == 6 {
        Op::Lt
    } else if b == 7 {
        Op::Gt
    } else {
        return None;
    };
    let res = match read_reg(buf, i + 1) {
        Some(r) => r,
        None => {
            return None;
        },
    };
    let left = match read_reg(buf, i + 6) {
        Some(r) => r,
        None => {
            return None;
        },
    };
    let right = match read_reg(buf, i + 11) {
        Some(r) => r,
        None => {
            return None;
        },
    };
    Some(Instr { op, res, left, right })
}

/// The compiled form of a measurement program: the ordered instruction
/// sequence the datapath executes in its fold loop.
#[derive(Debug)]
pub struct Bin(pub Vec<Instr>);

/// True when two byte slices hold the same bytes.
pub fn bytes_eq(a: &[u8], b: &[u8]) -> (r: bool)
    ensures
        r == (a@ == b@),
{
    if a.len() != b.len() {
        proof {
            assert(a@.len() != b@.len());
        }
        return false;
    }
    let n = a.len();
    let mut i: usize = 0;
    while i < n
        invariant
            n == a@.len() && n == b@.len(),
            i <= n,
            forall|j: int| 0 <= j < i ==> a@[j] == b@[j],
        decreases n - i,
    {
        if a[i] != b[i] {
            return false;
        }
        i += 1;
    }
    proof {
        assert(a@ =~= b@);
    }
    true
}

/// First register bound to `name` in an association list of scope entries.
pub open spec fn scope_lookup(entries: Seq<(Seq<u8>, Reg)>, name: Seq<u8>) -> Option<Reg>
    decreases entries.len(),
{
    if entries.len() == 0 {
        None
    } else if entries[0].0 == name {
        Some(entries[0].1)
    } else {
        scope_lookup(entries.subrange(1, entries.len() as int), name)
    }
}

/// Name-to-register mapping produced by compiling a measurement program;
/// the sole artifact used to interpret that program's measurement reports.
#[derive(Debug)]
pub struct Scope {
    entries: Vec<(Vec<u8>, Reg)>,
}

impl View for Scope {
    type V = Seq<(Seq<u8>, Reg)>;

    closed spec fn view(&self) -> Seq<(Seq<u8>, Reg)> {
        self.entries@.map(|i: int, e: (Vec<u8>, Reg)| (e.0@, e.1))
    }
}

impl Scope {
    /// An empty scope.
    pub fn new() -> (s: Scope)
        ensures
            s@ == Seq::<(Seq<u8>, Reg)>::empty(),
    {
        let s = Scope { entries: Vec::new() };
        proof {
            assert(s@ =~= Seq::<(Seq<u8>, Reg)>::empty());
        }
        s
    }

    /// Number of bindings.
    pub fn len(&self) -> (n: usize)
        ensures
            n == self@.len(),
    {
        self.entries.len()
    }

    /// Append a binding.
    pub fn push(&mut self, name: Vec<u8>, r: Reg)
        ensures
            final(self)@ == old(self)@ + seq![(name@, r)],
    {
        self.entries.push((name, r));
        proof {
            assert(self@ =~= old(self)@ + seq![(name@, r)]);
        }
    }

    /// The register bound to `name`, if any.
    pub fn get(&self, name: &[u8]) -> (r: Option<Reg>)
        ensures
            r == scope_lookup(self@, name@),
    {
        let n = self.entries.len();
        proof {
            assert(self@.subrange(0, n as int) =~= self@);
        }
        let mut i: usize = 0;
        while i < n
            invariant
                n == self.entries@.len(),
                i <= n,
                scope_lookup(self@, name@) == scope_lookup(
                    self@.subrange(i as int, n as int),
                    name@,
                ),
            decreases n - i,
        {
            let hit = bytes_eq(self.entries[i].0.as_slice(), name);
            proof {
                let tail = self@.subrange(i as int, n as int);
                assert(tail[0] == (self.entries@[i as int].0@, self.entries@[i as int].1));
                assert(tail.subrange(1, tail.len() as int) =~= self@.subrange(i + 1, n as int));
            }
            if hit {
                return Some(self.entries[i].1);
            }
            i += 1;
        }
        proof {
            assert(self@.subrange(n as int, n as int) =~= Seq::<(Seq<u8>, Reg)>::empty());
        }
        None
    }
}

/// Most permanent registers one program may declare.
pub const MAX_PERMANENTS: usize = 16;

/// What the parser was looking for when it failed.
#[derive(Debug, Clone, Copy, PartialEq, Eq, Structural)]
pub enum Expected {
    /// A `(`, opening a declaration.
    Decl,
    /// A fresh identifier naming the declared permanent register.
    FreshIdent,
    /// An operation name after `(`.
    OpName,
    /// An identifier or number.
    Atom,
    /// A `)`.
    CloseParen,
    /// A number that fits 32 bits.
    Number,
    /// Any token: the byte at hand starts none.
    Token,
}

/// Why a measurement program failed to compile.
#[derive(Debug, Clone, Copy, PartialEq, Eq, Structural)]
pub enum CompileError {
    /// Malformed syntax at a source byte offset.
    ParseError { pos: usize, expected: Expected },
    /// An identifier at the given offset names no permanent or implicit
    /// register.
    UnknownIdentifier { pos: usize },
    /// An operand's type does not fit the operation's signature.
    TypeMismatch { op: Op, got: Type, expected: Type },
    /// More permanent registers declared than a report can carry.
    TooManyPermanents,
    /// The chain lowering ran out of scratch registers.
    TooManyTemporaries,
}

/// One token, carrying the source offset it starts at.
#[derive(Debug, Clone, Copy, PartialEq, Eq, Structural)]
pub enum Token {
    LParen(usize),
    RParen(usize),
    /// Identifier at `pos`, `len` bytes long.
    Ident(usize, usize),
    /// Number literal at `pos`.
    Num(usize, u32),
}

pub open spec fn is_space(b: u8) -> bool {
    b == 32 || b == 9 || b == 10 || b == 13
}

pub open spec fn is_digit(b: u8) -> bool {
    48 <= b && b <= 57
}

/// An ASCII lower-case letter or underscore.
pub open spec fn is_ident_start(b: u8) -> bool {
    (97 <= b && b <= 122) || b == 95
}

pub open spec fn is_ident_char(b: u8) -> bool {
    is_ident_start(b) || is_digit(b)
}

/// First offset at or after `i` whose byte does not continue an
/// identifier.
pub open spec fn scan_end(s: Seq<u8>, i: nat) -> nat
    decreases s.len() - i,
    when i <= s.len()
{
    if i < s.len() && is_ident_char(s[i as int]) {
        scan_end(s, i + 1)
    } else {
        i
    }
}

/// `scan_end` stays within the source.
pub proof fn lemma_scan_end(s: Seq<u8>, i: nat)
    requires
        i <= s.len(),
    ensures
        i <= scan_end(s, i) <= s.len(),
    decreases s.len() - i,
{
    if i < s.len() && is_ident_char(s[i as int]) {
        lemma_scan_end(s, i + 1);
    }
}

/// Accumulate decimal digits from `i`; `None` when the value leaves
/// 32 bits.
pub open spec fn scan_num(s: Seq<u8>, i: nat, acc: u32) -> Option<(u32, nat)>
    decreases s.len() - i,
    when i <= s.len()
{
    if i < s.len() && is_digit(s[i as int]) {
        let v = acc * 10 + (s[i as int] - 48);
        if v > 0xffff_ffff {
            None
        } else {
            scan_num(s, i + 1, v as u32)
        }
    } else {
        Some((acc, i))
    }
}

/// `scan_num` stays within the source.
pub proof fn lemma_scan_num(s: Seq<u8>, i: nat, acc: u32)
    requires
        i <= s.len(),
    ensures
        scan_num(s, i, acc) matches Some(r) ==> i <= r.1 <= s.len(),
    decreases s.len() - i,
{
    if i < s.len() && is_digit(s[i as int]) {
        let v = acc * 10 + (s[i as int] - 48);
        if v <= 0xffff_ffff {
            lemma_scan_num(s, i + 1, v as u32);
        }
    }
}

/// `r` with `t` put in front of its tokens, if it has any.
pub open spec fn cons_tok(t: Token, r: Result<Seq<Token>, CompileError>) -> Result<
    Seq<Token>,
    CompileError,
> {
    match r {
        Ok(ts) => Ok(seq![t] + ts),
        Err(e) => Err(e),
    }
}

/// Tokens of the source from offset `i` on: parentheses, identifiers,
/// numbers; whitespace separates.
pub open spec fn tokenize_at(s: Seq<u8>, i: nat) -> Result<Seq<Token>, CompileError>
    decreases s.len() - i,
    when i <= s.len()
    via tokenize_at_dec
{
    if i >= s.len() {
        Ok(Seq::empty())
    } else if is_space(s[i as int]) {
        tokenize_at(s, i + 1)
    } else if s[i as int] == 40 {
        cons_tok(Token::LParen(i as usize), tokenize_at(s, i + 1))
    } else if s[i as int] == 41 {
        cons_tok(Token::RParen(i as usize), tokenize_at(s, i + 1))
    } else if is_digit(s[i as int]) {
        match scan_num(s, i, 0) {
            Some((v, j)) => cons_tok(Token::Num(i as usize, v), tokenize_at(s, j)),
            None => Err(CompileError::ParseError { pos: i as usize, expected: Expected::Number }),
        }
    } else if is_ident_start(s[i as int]) {
        let j = scan_end(s, i + 1);
        cons_tok(Token::Ident(i as usize, (j - i) as usize), tokenize_at(s, j))
    } else {
        Err(CompileError::ParseError { pos: i as usize, expected: Expected::Token })
    }
}

#[via_fn]
proof fn tokenize_at_dec(s: Seq<u8>, i: nat) {
    if i < s.len() {
        lemma_scan_end(s, i + 1);
        if is_digit(s[i as int]) {
            lemma_scan_num_advances(s, i);
        }
    }
}

/// On a digit, `scan_num` moves strictly forward.
pub proof fn lemma_scan_num_advances(s: Seq<u8>, i: nat)
    requires
        i < s.len(),
        is_digit(s[i as int]),
    ensures
        scan_num(s, i, 0) matches Some(r) ==> i + 1 <= r.1 <= s.len(),
{
    let v = 0 * 10 + (s[i as int] - 48);
    if v <= 0xffff_ffff {
        lemma_scan_num(s, i + 1, v as u32);
    }
}

/// Identifier bytes of a token at `pos`, `len` long.
pub open spec fn name_at(s: Seq<u8>, pos: usize, len: usize) -> Seq<u8> {
    s.subrange(pos as int, pos + len)
}

/// The permanent register index bound to the identifier at `pos`/`len`,
/// searching the declarations made so far.
pub open spec fn find_perm(s: Seq<u8>, env: Seq<(usize, usize, u32)>, pos: usize, len: usize)
    -> Option<u32>
    decreases env.len(),
{
    if env.len() == 0 {
        None
    } else if name_at(s, env[0].0, env[0].1) == name_at(s, pos, len) {
        Some(env[0].2)
    } else {
        find_perm(s, env.subrange(1, env.len() as int), pos, len)
    }
}

/// The datapath's implicit vocabulary: name, register index and type.
pub open spec fn implicit_of(name: Seq<u8>) -> Option<(u32, Type)> {
    if name == seq![97u8, 99u8, 107u8] {  // ack
        Some((0u32, Type::Num))
    } else if name == seq![114u8, 116u8, 116u8] {  // rtt
        Some((1u32, Type::Num))
    } else if name == seq![108u8, 111u8, 115u8, 115u8] {  // loss
        Some((2u32, Type::Num))
    } else if name == seq![116u8, 105u8, 109u8, 101u8, 111u8, 117u8, 116u8] {  // timeout
        Some((3u32, Type::Bool))
    } else if name == seq![99u8, 119u8, 110u8, 100u8] {  // cwnd
        Some((4u32, Type::Num))
    } else if name == seq![114u8, 97u8, 116u8, 101u8] {  // rate
        Some((5u32, Type::Num))
    } else {
        None
    }
}

/// The fold operation a chain's head identifier names.
pub open spec fn op_of(name: Seq<u8>) -> Option<Op> {
    if name == seq![97u8, 100u8, 100u8] {  // add
        Some(Op::Add)
    } else if name == seq![115u8, 117u8, 98u8] {  // sub
        Some(Op::Sub)
    } else if name == seq![109u8, 117u8, 108u8] {  // mul
        Some(Op::Mul)
    } else if name == seq![109u8, 97u8, 120u8] {  // max
        Some(Op::Max)
    } else if name == seq![109u8, 105u8, 110u8] {  // min
        Some(Op::Min)
    } else {
        None
    }
}

/// The register an atom denotes and its type: a number is an immediate
/// constant; an identifier is the permanent it names, else the implicit
/// it names, else unknown.
pub open spec fn resolve_atom(s: Seq<u8>, env: Seq<(usize, usize, u32)>, t: Token) -> Result<
    (Reg, Type),
    CompileError,
> {
    match t {
        Token::Num(_, v) => Ok((Reg::Const(v), Type::Num)),
        Token::Ident(pos, len) => match find_perm(s, env, pos, len) {
            Some(idx) => Ok((Reg::Perm(idx, Type::Num), Type::Num)),
            None => match implicit_of(name_at(s, pos, len)) {
                Some((idx, ty)) => Ok((Reg::Implicit(idx, ty), ty)),
                None => Err(CompileError::UnknownIdentifier { pos }),
            },
        },
        Token::LParen(pos) => Err(
            CompileError::ParseError { pos, expected: Expected::Atom },
        ),
        Token::RParen(pos) => Err(
            CompileError::ParseError { pos, expected: Expected::Atom },
        ),
    }
}

/// Source offset a token starts at.
pub open spec fn token_pos(t: Token) -> usize {
    match t {
        Token::LParen(p) => p,
        Token::RParen(p) => p,
        Token::Ident(p, _) => p,
        Token::Num(p, _) => p,
    }
}

/// Fold the remaining atoms of a chain into `acc_reg`, one scratch
/// register and one instruction per atom, until the closing `)`.
/// Returns the chain's result register, the token index after the `)`,
/// the next scratch index, and all instructions emitted so far.
pub open spec fn chain_at(
    s: Seq<u8>,
    toks: Seq<Token>,
    i: nat,
    env: Seq<(usize, usize, u32)>,
    op: Op,
    acc_reg: Reg,
    tmp: u32,
    acc: Seq<Instr>,
) -> Result<(Reg, nat, u32, Seq<Instr>), CompileError>
    decreases toks.len() - i,
    when i <= toks.len()
{
    if i >= toks.len() {
        Err(CompileError::ParseError { pos: s.len() as usize, expected: Expected::CloseParen })
    } else if toks[i as int] is RParen {
        Ok((acc_reg, i + 1, tmp, acc))
    } else {
        match resolve_atom(s, env, toks[i as int]) {
            Err(e) => Err(e),
            Ok((r, ty)) => if ty != Type::Num {
                Err(CompileError::TypeMismatch { op, got: ty, expected: Type::Num })
            } else if tmp == 0xffff_ffff {
                Err(CompileError::TooManyTemporaries)
            } else {
                chain_at(
                    s,
                    toks,
                    i + 1,
                    env,
                    op,
                    Reg::Tmp(tmp),
                    (tmp + 1) as u32,
                    acc + seq![
                        Instr { op, res: Reg::Tmp(tmp), left: acc_reg, right: r },
                    ],
                )
            },
        }
    }
}

/// `chain_at` moves strictly forward and stays within the tokens.
pub proof fn lemma_chain_at(
    s: Seq<u8>,
    toks: Seq<Token>,
    i: nat,
    env: Seq<(usize, usize, u32)>,
    op: Op,
    acc_reg: Reg,
    tmp: u32,
    acc: Seq<Instr>,
)
    requires
        i <= toks.len(),
    ensures
        chain_at(s, toks, i, env, op, acc_reg, tmp, acc) matches Ok(r) ==> i < r.1 <= toks.len(),
    decreases toks.len() - i,
{
    if i < toks.len() && !(toks[i as int] is RParen) {
        match resolve_atom(s, env, toks[i as int]) {
            Err(_) => {},
            Ok((r, ty)) => if ty == Type::Num && tmp != 0xffff_ffff {
                lemma_chain_at(
                    s,
                    toks,
                    i + 1,
                    env,
                    op,
                    Reg::Tmp(tmp),
                    (tmp + 1) as u32,
                    acc + seq![Instr { op, res: Reg::Tmp(tmp), left: acc_reg, right: r }],
                );
            },
        }
    }
}

/// Compile the declarations from token `i` on. Each declaration
/// `(name atom)` or `(name (op atom atom ...))` binds the next permanent
/// register index to `name`, in source order, and ends with a `Bind`
/// instruction into that register.
pub open spec fn decls_at(
    s: Seq<u8>,
    toks: Seq<Token>,
    i: nat,
    env: Seq<(usize, usize, u32)>,
    tmp: u32,
    acc: Seq<Instr>,
) -> Result<(Seq<Instr>, Seq<(usize, usize, u32)>), CompileError>
    decreases toks.len() - i,
    when i <= toks.len()
    via decls_at_dec
{
    if i >= toks.len() {
        Ok((acc, env))
    } else if !(toks[i as int] is LParen) {
        Err(
            CompileError::ParseError {
                pos: token_pos(toks[i as int]),
                expected: Expected::Decl,
            },
        )
    } else if i + 1 >= toks.len() {
        Err(CompileError::ParseError { pos: s.len() as usize, expected: Expected::FreshIdent })
    } else {
        match toks[(i + 1) as int] {
            Token::Ident(pos, len) => if find_perm(s, env, pos, len) is Some {
                Err(CompileError::ParseError { pos, expected: Expected::FreshIdent })
            } else if env.len() >= MAX_PERMANENTS {
                Err(CompileError::TooManyPermanents)
            } else {
                let idx = env.len() as u32;
                let env2 = env + seq![(pos, len, idx)];
                let dst = Reg::Perm(idx, Type::Num);
                if i + 2 >= toks.len() {
                    Err(
                        CompileError::ParseError {
                            pos: s.len() as usize,
                            expected: Expected::Atom,
                        },
                    )
                } else if toks[(i + 2) as int] is LParen {
                    if i + 4 >= toks.len() {
                        Err(
                            CompileError::ParseError {
                                pos: s.len() as usize,
                                expected: Expected::Atom,
                            },
                        )
                    } else {
                        match toks[(i + 3) as int] {
                            Token::Ident(opos, olen) => match op_of(name_at(s, opos, olen)) {
                                None => Err(
                                    CompileError::ParseError {
                                        pos: opos,
                                        expected: Expected::OpName,
                                    },
                                ),
                                Some(op) => match resolve_atom(s, env2, toks[(i + 4) as int]) {
                                    Err(e) => Err(e),
                                    Ok((first, fty)) => if fty != Type::Num {
                                        Err(
                                            CompileError::TypeMismatch {
                                                op,
                                                got: fty,
                                                expected: Type::Num,
                                            },
                                        )
                                    } else {
                                        match chain_at(
                                            s,
                                            toks,
                                            (i + 5) as nat,
                                            env2,
                                            op,
                                            first,
                                            tmp,
                                            acc,
                                        ) {
                                            Err(e) => Err(e),
                                            Ok((res, j, tmp2, acc2)) => if j >= toks.len() {
                                                Err(
                                                    CompileError::ParseError {
                                                        pos: s.len() as usize,
                                                        expected: Expected::CloseParen,
                                                    },
                                                )
                                            } else if !(toks[j as int] is RParen) {
                                                Err(
                                                    CompileError::ParseError {
                                                        pos: token_pos(toks[j as int]),
                                                        expected: Expected::CloseParen,
                                                    },
                                                )
                                            } else {
                                                decls_at(
                                                    s,
                                                    toks,
                                                    j + 1,
                                                    env2,
                                                    tmp2,
                                                    acc2 + seq![
                                                        Instr {
                                                            op: Op::Bind,
                                                            res: dst,
                                                            left: res,
                                                            right: Reg::Const(0),
                                                        },
                                                    ],
                                                )
                                            },
                                        }
                                    },
                                },
                            },
                            _ => Err(
                                CompileError::ParseError {
                                    pos: token_pos(toks[(i + 3) as int]),
                                    expected: Expected::OpName,
                                },
                            ),
                        }
                    }
                } else {
                    match resolve_atom(s, env2, toks[(i + 2) as int]) {
                        Err(e) => Err(e),
                        Ok((r, ty)) => if ty != Type::Num {
                            Err(
                                CompileError::TypeMismatch {
                                    op: Op::Bind,
                                    got: ty,
                                    expected: Type::Num,
                                },
                            )
                        } else if i + 3 >= toks.len() {
                            Err(
                                CompileError::ParseError {
                                    pos: s.len() as usize,
                                    expected: Expected::CloseParen,
                                },
                            )
                        } else if !(toks[(i + 3) as int] is RParen) {
                            Err(
                                CompileError::ParseError {
                                    pos: token_pos(toks[(i + 3) as int]),
                                    expected: Expected::CloseParen,
                                },
                            )
                        } else {
                            decls_at(
                                s,
                                toks,
                                i + 4,
                                env2,
                                tmp,
                                acc + seq![
                                    Instr {
                                        op: Op::Bind,
                                        res: dst,
                                        left: r,
                                        right: Reg::Const(0),
                                    },
                                ],
                            )
                        },
                    }
                }
            },
            _ => Err(
                CompileError::ParseError {
                    pos: token_pos(toks[(i + 1) as int]),
                    expected: Expected::FreshIdent,
                },
            ),
        }
    }
}

#[via_fn]
proof fn decls_at_dec(
    s: Seq<u8>,
    toks: Seq<Token>,
    i: nat,
    env: Seq<(usize, usize, u32)>,
    tmp: u32,
    acc: Seq<Instr>,
) {
    if i < toks.len() && i + 4 < toks.len() {
        if let Token::Ident(pos, len) = toks[(i + 1) as int] {
            let env2 = env + seq![(pos, len, env.len() as u32)];
            match resolve_atom(s, env2, toks[(i + 4) as int]) {
                Ok((first, _)) => {
                    lemma_chain_at(s, toks, (i + 5) as nat, env2, Op::Add, first, tmp, acc);
                    if let Token::Ident(opos, olen) = toks[(i + 3) as int] {
                        match op_of(name_at(s, opos, olen)) {
                            Some(op) => {
                                lemma_chain_at(
                                    s,
                                    toks,
                                    (i + 5) as nat,
                                    env2,
                                    op,
                                    first,
                                    tmp,
                                    acc,
                                );
                            },
                            None => {},
                        }
                    }
                },
                Err(_) => {},
            }
        }
    }
}

/// An identifier token's byte range lies inside a source of `n` bytes.
pub open spec fn tok_in_range(t: Token, n: nat) -> bool {
    match t {
        Token::Ident(pos, len) => pos + len <= n,
        _ => true,
    }
}

/// Every declared name's byte range lies inside a source of `n` bytes.
pub open spec fn env_in_range(env: Seq<(usize, usize, u32)>, n: nat) -> bool {
    forall|k: int| 0 <= k < env.len() ==> (#[trigger] env[k]).0 + env[k].1 <= n
}

/// `r` with `t` put in front of its tokens, if it has any (exec-side
/// loop form of `cons_tok`).
pub open spec fn toks_prepend(a: Seq<Token>, r: Result<Seq<Token>, CompileError>) -> Result<
    Seq<Token>,
    CompileError,
> {
    match r {
        Ok(ts) => Ok(a + ts),
        Err(e) => Err(e),
    }
}

/// Split the source into tokens, exactly as the specification-level
/// tokenizer does.
pub fn tokenize(src: &[u8]) -> (r: Result<Vec<Token>, CompileError>)
    ensures
        match r {
            Ok(ts) => tokenize_at(src@, 0) == Ok::<Seq<Token>, CompileError>(ts@) && (forall|k: int|
                0 <= k < ts@.len() ==> tok_in_range(#[trigger] ts@[k], src@.len())),
            Err(e) => tokenize_at(src@, 0) == Err::<Seq<Token>, CompileError>(e),
        },
{
    let n = src.len();
    let mut out: Vec<Token> = Vec::new();
    let mut i: usize = 0;
    proof {
        match tokenize_at(src@, 0) {
            Ok(ts) => {
                assert(out@ + ts =~= ts);
            },
            Err(_) => {},
        }
    }
    while i < n
        invariant
            n == src@.len(),
            i <= n,
            forall|k: int| 0 <= k < out@.len() ==> tok_in_range(#[trigger] out@[k], src@.len()),
            tokenize_at(src@, 0) == toks_prepend(out@, tokenize_at(src@, i as nat)),
        decreases n - i,
    {
        let b = src[i];
        if b == 32 || b == 9 || b == 10 || b == 13 {
            proof {
                assert(tokenize_at(src@, i as nat) == tokenize_at(src@, (i + 1) as nat));
            }
            i += 1;
        } else if b == 40 {
            let t = Token::LParen(i);
            proof {
                assert(tokenize_at(src@, i as nat) == cons_tok(t, tokenize_at(src@, (i + 1) as nat)));
                assert(out@.push(t) =~= out@ + seq![t]);
                match tokenize_at(src@, (i + 1) as nat) {
                    Ok(ts) => {
                        assert(out@ + (seq![t] + ts) =~= (out@ + seq![t]) + ts);
                    },
                    Err(_) => {},
                }
            }
            proof {
            }
            out.push(t);
            i += 1;
        } else if b == 41 {
            let t = Token::RParen(i);
            proof {
                assert(tokenize_at(src@, i as nat) == cons_tok(t, tokenize_at(src@, (i + 1) as nat)));
                assert(out@.push(t) =~= out@ + seq![t]);
                match tokenize_at(src@, (i + 1) as nat) {
                    Ok(ts) => {
                        assert(out@ + (seq![t] + ts) =~= (out@ + seq![t]) + ts);
                    },
                    Err(_) => {},
                }
            }
            proof {
            }
            out.push(t);
            i += 1;
        } else if 48 <= b && b <= 57 {
            let start = i;
            let mut acc: u32 = 0;
            let mut j = i;
            while j < n && 48 <= src[j] && src[j] <= 57
                invariant
                    n == src@.len(),
                    start <= j <= n,
                    start < n && 48 <= src@[start as int] <= 57,
                    scan_num(src@, start as nat, 0) == scan_num(src@, j as nat, acc),
                    tokenize_at(src@, 0) == toks_prepend(out@, tokenize_at(src@, start as nat)),
                    forall|k: int| 0 <= k < out@.len() ==> tok_in_range(
                        #[trigger] out@[k],
                        src@.len(),
                    ),
                decreases n - j,
            {
                let v = (acc as u64) * 10 + ((src[j] - 48) as u64);
                if v > 0xffff_ffff {
                    proof {
                        assert(scan_num(src@, j as nat, acc) is None);
                        assert(tokenize_at(src@, start as nat) == Err::<Seq<Token>, CompileError>(
                            CompileError::ParseError { pos: start, expected: Expected::Number },
                        ));
                    }
                    return Err(
                        CompileError::ParseError { pos: start, expected: Expected::Number },
                    );
                }
                acc = v as u32;
                j += 1;
            }
            let t = Token::Num(start, acc);
            proof {
                assert(scan_num(src@, j as nat, acc) == Some::<(u32, nat)>((acc, j as nat)));
                assert(tokenize_at(src@, start as nat) == cons_tok(t, tokenize_at(src@, j as nat)));
                assert(out@.push(t) =~= out@ + seq![t]);
                match tokenize_at(src@, j as nat) {
                    Ok(ts) => {
                        assert(out@ + (seq![t] + ts) =~= (out@ + seq![t]) + ts);
                    },
                    Err(_) => {},
                }
            }
            proof {
            }
            out.push(t);
            i = j;
        } else if (97 <= b && b <= 122) || b == 95 {
            let start = i;
            let mut j = i + 1;
            while j < n && ((97 <= src[j] && src[j] <= 122) || src[j] == 95 || (48 <= src[j]
                && src[j] <= 57))
                invariant
                    n == src@.len(),
                    start + 1 <= j <= n,
                    start < n && ((97 <= src@[start as int] && src@[start as int] <= 122)
                        || src@[start as int] == 95),
                    scan_end(src@, (start + 1) as nat) == scan_end(src@, j as nat),
                    tokenize_at(src@, 0) == toks_prepend(out@, tokenize_at(src@, start as nat)),
                    forall|k: int| 0 <= k < out@.len() ==> tok_in_range(
                        #[trigger] out@[k],
                        src@.len(),
                    ),
                decreases n - j,
            {
                j += 1;
            }
            let t = Token::Ident(start, j - start);
            proof {
                assert(scan_end(src@, j as nat) == j as nat);
                assert(tokenize_at(src@, start as nat) == cons_tok(t, tokenize_at(src@, j as nat)));
                assert(out@.push(t) =~= out@ + seq![t]);
                match tokenize_at(src@, j as nat) {
                    Ok(ts) => {
                        assert(out@ + (seq![t] + ts) =~= (out@ + seq![t]) + ts);
                    },
                    Err(_) => {},
                }
            }
            proof {
            }
            out.push(t);
            i = j;
        } else {
            proof {
                assert(tokenize_at(src@, i as nat) == Err::<Seq<Token>, CompileError>(
                    CompileError::ParseError { pos: i, expected: Expected::Token },
                ));
            }
            return Err(CompileError::ParseError { pos: i, expected: Expected::Token });
        }
    }
    proof {
        assert(out@ + Seq::<Token>::empty() =~= out@);
    }
    Ok(out)
}

/// Runtime search matching `find_perm`.
fn find_perm_x(src: &[u8], env: &Vec<(usize, usize, u32)>, pos: usize, len: usize) -> (r: Option<
    u32,
>)
    requires
        pos + len <= src@.len(),
        env_in_range(env@, src@.len()),
    ensures
        r == find_perm(src@, env@, pos, len),
{
    let n = env.len();
    let ns = src.len();
    proof {
        assert(env@.subrange(0, n as int) =~= env@);
    }
    let mut k: usize = 0;
    while k < n
        invariant
            n == env@.len(),
            ns == src@.len(),
            k <= n,
            pos + len <= src@.len(),
            env_in_range(env@, src@.len()),
            find_perm(src@, env@, pos, len) == find_perm(
                src@,
                env@.subrange(k as int, n as int),
                pos,
                len,
            ),
        decreases n - k,
    {
        let e = env[k];
        proof {
            let tail = env@.subrange(k as int, n as int);
            assert(tail[0] == env@[k as int]);
            assert(tail.subrange(1, tail.len() as int) =~= env@.subrange(k + 1, n as int));
            assert(env@[k as int].0 + env@[k as int].1 <= src@.len());
        }
        let hit = bytes_eq(
            vstd::slice::slice_subrange(src, e.0, e.0 + e.1),
            vstd::slice::slice_subrange(src, pos, pos + len),
        );
        if hit {
            return Some(e.2);
        }
        k += 1;
    }
    proof {
        assert(env@.subrange(n as int, n as int) =~= Seq::<(usize, usize, u32)>::empty());
    }
    None
}

/// Runtime lookup matching `implicit_of`.
fn implicit_x(src: &[u8], pos: usize, len: usize) -> (r: Option<(u32, Type)>)
    requires
        pos + len <= src@.len(),
    ensures
        r == implicit_of(name_at(src@, pos, len)),
{
    proof {
        let nm = name_at(src@, pos, len);
        assert(nm.len() == len);
    }
    if len == 3 && src[pos] == 97 && src[pos + 1] == 99 && src[pos + 2] == 107 {
        proof {
            assert(name_at(src@, pos, len) =~= seq![97u8, 99u8, 107u8]);
        }
        Some((0, Type::Num))
    } else if len == 3 && src[pos] == 114 && src[pos + 1] == 116 && src[pos + 2] == 116 {
        proof {
            assert(name_at(src@, pos, len) =~= seq![114u8, 116u8, 116u8]);
        }
        Some((1, Type::Num))
    } else if len == 4 && src[pos] == 108 && src[pos + 1] == 111 && src[pos + 2] == 115 && src[pos
        + 3] == 115 {
        proof {
            assert(name_at(src@, pos, len) =~= seq![108u8, 111u8, 115u8, 115u8]);
        }
        Some((2, Type::Num))
    } else if len == 7 && src[pos] == 116 && src[pos + 1] == 105 && src[pos + 2] == 109 && src[pos
        + 3] == 101 && src[pos + 4] == 111 && src[pos + 5] == 117 && src[pos + 6] == 116 {
        proof {
            assert(name_at(src@, pos, len) =~= seq![
                116u8, 105u8, 109u8, 101u8, 111u8, 117u8, 116u8,
            ]);
        }
        Some((3, Type::Bool))
    } else if len == 4 && src[pos] == 99 && src[pos + 1] == 119 && src[pos + 2] == 110 && src[pos
        + 3] == 100 {
        proof {
            assert(name_at(src@, pos, len) =~= seq![99u8, 119u8, 110u8, 100u8]);
        }
        Some((4, Type::Num))
    } else if len == 4 && src[pos] == 114 && src[pos + 1] == 97 && src[pos + 2] == 116 && src[pos
        + 3] == 101 {
        proof {
            assert(name_at(src@, pos, len) =~= seq![114u8, 97u8, 116u8, 101u8]);
        }
        Some((5, Type::Num))
    } else {
        None
    }
}

/// Runtime lookup matching `op_of`.
fn op_x(src: &[u8], pos: usize, len: usize) -> (r: Option<Op>)
    requires
        pos + len <= src@.len(),
    ensures
        r == op_of(name_at(src@, pos, len)),
{
    proof {
        let nm = name_at(src@, pos, len);
        assert(nm.len() == len);
    }
    if len != 3 {
        return None;
    }
    let b0 = src[pos];
    let b1 = src[pos + 1];
    let b2 = src[pos + 2];
    if b0 == 97 && b1 == 100 && b2 == 100 {
        proof {
            assert(name_at(src@, pos, len) =~= seq![97u8, 100u8, 100u8]);
        }
        Some(Op::Add)
    } else if b0 == 115 && b1 == 117 && b2 == 98 {
        proof {
            assert(name_at(src@, pos, len) =~= seq![115u8, 117u8, 98u8]);
        }
        Some(Op::Sub)
    } else if b0 == 109 && b1 == 117 && b2 == 108 {
        proof {
            assert(name_at(src@, pos, len) =~= seq![109u8, 117u8, 108u8]);
        }
        Some(Op::Mul)
    } else if b0 == 109 && b1 == 97 && b2 == 120 {
        proof {
            assert(name_at(src@, pos, len) =~= seq![109u8, 97u8, 120u8]);
        }
        Some(Op::Max)
    } else if b0 == 109 && b1 == 105 && b2 == 110 {
        proof {
            assert(name_at(src@, pos, len) =~= seq![109u8, 105u8, 110u8]);
        }
        Some(Op::Min)
    } else {
        None
    }
}

/// Runtime resolution matching `resolve_atom`.
fn resolve_x(src: &[u8], env: &Vec<(usize, usize, u32)>, t: Token) -> (r: Result<
    (Reg, Type),
    CompileError,
>)
    requires
        tok_in_range(t, src@.len()),
        env_in_range(env@, src@.len()),
    ensures
        r == resolve_atom(src@, env@, t),
{
    match t {
        Token::Num(_, v) => Ok((Reg::Const(v), Type::Num)),
        Token::Ident(pos, len) => match find_perm_x(src, env, pos, len) {
            Some(idx) => Ok((Reg::Perm(idx, Type::Num), Type::Num)),
            None => match implicit_x(src, pos, len) {
                Some((idx, ty)) => Ok((Reg::Implicit(idx, ty), ty)),
                None => Err(CompileError::UnknownIdentifier { pos }),
            },
        },
        Token::LParen(pos) => Err(CompileError::ParseError { pos, expected: Expected::Atom }),
        Token::RParen(pos) => Err(CompileError::ParseError { pos, expected: Expected::Atom }),
    }
}

/// Runtime chain lowering matching `chain_at`: one scratch register and
/// one instruction per further atom.
fn chain_x(
    src: &[u8],
    toks: &Vec<Token>,
    i0: usize,
    env: &Vec<(usize, usize, u32)>,
    op: Op,
    acc_reg0: Reg,
    tmp0: u32,
    instrs: &mut Vec<Instr>,
) -> (r: Result<(Reg, usize, u32), CompileError>)
    requires
        i0 <= toks@.len(),
        env_in_range(env@, src@.len()),
        reg_wire_ok(acc_reg0),
        forall|k: int| 0 <= k < toks@.len() ==> tok_in_range(#[trigger] toks@[k], src@.len()),
    ensures
        match r {
            Ok(out) => chain_at(src@, toks@, i0 as nat, env@, op, acc_reg0, tmp0, old(instrs)@)
                == Ok::<_, CompileError>((out.0, out.1 as nat, out.2, final(instrs)@)) && i0 < out.1
                <= toks@.len() && reg_wire_ok(out.0) && final(instrs)@.len() >= old(instrs)@.len()
                && final(instrs)@.subrange(0, old(instrs)@.len() as int) == old(instrs)@ && (
            forall|k: int|
                old(instrs)@.len() <= k < final(instrs)@.len() ==> instr_wire_ok(
                    #[trigger] final(instrs)@[k],
                )),
            Err(e) => chain_at(src@, toks@, i0 as nat, env@, op, acc_reg0, tmp0, old(instrs)@)
                == Err::<(Reg, nat, u32, Seq<Instr>), CompileError>(e),
        },
{
    let n = toks.len();
    let mut i = i0;
    let mut acc_reg = acc_reg0;
    let mut tmp = tmp0;
    proof {
        assert(instrs@.subrange(0, old(instrs)@.len() as int) =~= old(instrs)@);
    }
    while i < n
        invariant
            n == toks@.len(),
            i0 <= i <= n,
            env_in_range(env@, src@.len()),
            reg_wire_ok(acc_reg),
            forall|k: int| 0 <= k < toks@.len() ==> tok_in_range(#[trigger] toks@[k], src@.len()),
            instrs@.len() >= old(instrs)@.len(),
            instrs@.subrange(0, old(instrs)@.len() as int) == old(instrs)@,
            forall|k: int|
                old(instrs)@.len() <= k < instrs@.len() ==> instr_wire_ok(#[trigger] instrs@[k]),
            chain_at(src@, toks@, i0 as nat, env@, op, acc_reg0, tmp0, old(instrs)@) == chain_at(
                src@,
                toks@,
                i as nat,
                env@,
                op,
                acc_reg,
                tmp,
                instrs@,
            ),
        decreases n - i,
    {
        let t = toks[i];
        if matches!(t, Token::RParen(_)) {
            return Ok((acc_reg, i + 1, tmp));
        }
        let (reg, ty) = match resolve_x(src, env, t) {
            Ok(p) => p,
            Err(e) => {
                return Err(e);
            },
        };
        if !matches!(ty, Type::Num) {
            return Err(CompileError::TypeMismatch { op, got: ty, expected: Type::Num });
        }
        if tmp == 0xffff_ffff {
            return Err(CompileError::TooManyTemporaries);
        }
        let ins = Instr { op, res: Reg::Tmp(tmp), left: acc_reg, right: reg };
        proof {
            assert(reg_wire_ok(reg));
            assert(instrs@ + seq![ins] =~= instrs@.push(ins));
            assert(instrs@.push(ins).subrange(0, old(instrs)@.len() as int) =~= instrs@.subrange(
                0,
                old(instrs)@.len() as int,
            ));
        }
        instrs.push(ins);
        acc_reg = Reg::Tmp(tmp);
        tmp = tmp + 1;
        i += 1;
    }
    Err(CompileError::ParseError { pos: src.len(), expected: Expected::CloseParen })
}

/// The scope a final environment denotes: each declared name bound to its
/// permanent register, in declaration order.
pub open spec fn scope_of(s: Seq<u8>, env: Seq<(usize, usize, u32)>) -> Seq<(Seq<u8>, Reg)> {
    env.map(|k: int, e: (usize, usize, u32)| (name_at(s, e.0, e.1), Reg::Perm(e.2, Type::Num)))
}

/// The invariant of a compiled scope: names pairwise distinct (every
/// reference resolved through the scope maps to exactly one
/// declaration), and permanent register indices dense from 0 in
/// declaration order.
pub open spec fn scope_wf(sc: Seq<(Seq<u8>, Reg)>) -> bool {
    &&& forall|a: int, b: int| 0 <= a < b < sc.len() ==> sc[a].0 != sc[b].0
    &&& forall|i: int| 0 <= i < sc.len() ==> (#[trigger] sc[i]).1 == Reg::Perm(i as u32, Type::Num)
}

/// The compiled form of a measurement source: its instruction sequence
/// and the scope interpreting its reports. Deterministic: a function of
/// the source bytes alone.
pub open spec fn compile_spec(s: Seq<u8>) -> Result<
    (Seq<Instr>, Seq<(Seq<u8>, Reg)>),
    CompileError,
> {
    match tokenize_at(s, 0) {
        Err(e) => Err(e),
        Ok(toks) => match decls_at(s, toks, 0, Seq::empty(), 0, Seq::empty()) {
            Err(e) => Err(e),
            Ok((instrs, env)) => Ok((instrs, scope_of(s, env))),
        },
    }
}

/// Runtime form of `token_pos`.
fn token_pos_x(t: Token) -> (p: usize)
    ensures
        p == token_pos(t),
{
    match t {
        Token::LParen(p) => p,
        Token::RParen(p) => p,
        Token::Ident(p, _) => p,
        Token::Num(p, _) => p,
    }
}

/// Compile one declaration starting at token `i0`, exactly as one step of
/// `decls_at` does: the environment gains the declared name and the
/// instruction buffer the declaration's code.
#[verifier::rlimit(50)]
fn decl_x(
    src: &[u8],
    toks: &Vec<Token>,
    i0: usize,
    env: &mut Vec<(usize, usize, u32)>,
    tmp0: u32,
    instrs: &mut Vec<Instr>,
) -> (r: Result<(usize, u32), CompileError>)
    requires
        i0 < toks@.len(),
        env_in_range(old(env)@, src@.len()),
        forall|k: int| 0 <= k < toks@.len() ==> tok_in_range(#[trigger] toks@[k], src@.len()),
    ensures
        match r {
            Ok(out) => decls_at(src@, toks@, i0 as nat, old(env)@, tmp0, old(instrs)@) == decls_at(
                src@,
                toks@,
                out.0 as nat,
                final(env)@,
                out.1,
                final(instrs)@,
            ) && i0 < out.0 <= toks@.len() && env_in_range(final(env)@, src@.len())
                && final(env)@.len() == old(env)@.len() + 1 && final(env)@.subrange(
                0,
                old(env)@.len() as int,
            ) == old(env)@ && final(env)@.last().2 == old(env)@.len() && (forall|k: int|
                0 <= k < old(env)@.len() ==> name_at(
                    src@,
                    (#[trigger] old(env)@[k]).0,
                    old(env)@[k].1,
                ) != name_at(src@, final(env)@.last().0, final(env)@.last().1))
                && final(instrs)@.len() >= old(instrs)@.len() && final(instrs)@.subrange(
                0,
                old(instrs)@.len() as int,
            ) == old(instrs)@ && (forall|k: int|
                old(instrs)@.len() <= k < final(instrs)@.len() ==> instr_wire_ok(
                    #[trigger] final(instrs)@[k],
                )),
            Err(e) => decls_at(src@, toks@, i0 as nat, old(env)@, tmp0, old(instrs)@) == Err::<
                (Seq<Instr>, Seq<(usize, usize, u32)>),
                CompileError,
            >(e),
        },
{
    let nt = toks.len();
    let t0 = toks[i0];
    if !matches!(t0, Token::LParen(_)) {
        return Err(CompileError::ParseError { pos: token_pos_x(t0), expected: Expected::Decl });
    }
    if i0 + 1 >= nt {
        return Err(
            CompileError::ParseError { pos: src.len(), expected: Expected::FreshIdent },
        );
    }
    let t1 = toks[i0 + 1];
    let (pos, len) = match t1 {
        Token::Ident(p, l) => (p, l),
        _ => {
            return Err(
                CompileError::ParseError {
                    pos: token_pos_x(t1),
                    expected: Expected::FreshIdent,
                },
            );
        },
    };
    if find_perm_x(src, env, pos, len).is_some() {
        return Err(CompileError::ParseError { pos, expected: Expected::FreshIdent });
    }
    if env.len() >= MAX_PERMANENTS {
        return Err(CompileError::TooManyPermanents);
    }
    let idx = env.len() as u32;
    proof {
        lemma_find_perm_none(src@, env@, pos, len);
        assert(old(env)@ + seq![(pos, len, idx)] =~= env@.push((pos, len, idx)));
    }
    env.push((pos, len, idx));
    proof {
        assert(env@.subrange(0, old(env)@.len() as int) =~= old(env)@);
    }
    let dst = Reg::Perm(idx, Type::Num);
    if i0 + 2 >= nt {
        return Err(CompileError::ParseError { pos: src.len(), expected: Expected::Atom });
    }
    let t2 = toks[i0 + 2];
    if matches!(t2, Token::LParen(_)) {
        if nt - i0 <= 4 {
            return Err(CompileError::ParseError { pos: src.len(), expected: Expected::Atom });
        }
        let t3 = toks[i0 + 3];
        let (opos, olen) = match t3 {
            Token::Ident(p, l) => (p, l),
            _ => {
                return Err(
                    CompileError::ParseError {
                        pos: token_pos_x(t3),
                        expected: Expected::OpName,
                    },
                );
            },
        };
        let op = match op_x(src, opos, olen) {
            Some(op) => op,
            None => {
                return Err(
                    CompileError::ParseError { pos: opos, expected: Expected::OpName },
                );
            },
        };
        let (first, fty) = match resolve_x(src, env, toks[i0 + 4]) {
            Ok(p) => p,
            Err(e) => {
                return Err(e);
            },
        };
        if !matches!(fty, Type::Num) {
            return Err(CompileError::TypeMismatch { op, got: fty, expected: Type::Num });
        }
        proof {
            assert(reg_wire_ok(first));
        }
        let (res, j, tmp2) = match chain_x(src, toks, i0 + 5, env, op, first, tmp0, instrs) {
            Ok(o) => o,
            Err(e) => {
                return Err(e);
            },
        };
        if j >= nt {
            return Err(
                CompileError::ParseError { pos: src.len(), expected: Expected::CloseParen },
            );
        }
        let tj = toks[j];
        if !matches!(tj, Token::RParen(_)) {
            return Err(
                CompileError::ParseError {
                    pos: token_pos_x(tj),
                    expected: Expected::CloseParen,
                },
            );
        }
        let bind = Instr { op: Op::Bind, res: dst, left: res, right: Reg::Const(0) };
        proof {
            assert(instr_wire_ok(bind));
            assert(instrs@ + seq![bind] =~= instrs@.push(bind));
            assert(instrs@.push(bind).subrange(0, old(instrs)@.len() as int) =~= instrs@.subrange(
                0,
                old(instrs)@.len() as int,
            ));
        }
        instrs.push(bind);
        Ok((j + 1, tmp2))
    } else {
        let (rg, ty) = match resolve_x(src, env, t2) {
            Ok(p) => p,
            Err(e) => {
                return Err(e);
            },
        };
        if !matches!(ty, Type::Num) {
            return Err(
                CompileError::TypeMismatch { op: Op::Bind, got: ty, expected: Type::Num },
            );
        }
        if i0 + 3 >= nt {
            return Err(
                CompileError::ParseError { pos: src.len(), expected: Expected::CloseParen },
            );
        }
        let t3 = toks[i0 + 3];
        if !matches!(t3, Token::RParen(_)) {
            return Err(
                CompileError::ParseError {
                    pos: token_pos_x(t3),
                    expected: Expected::CloseParen,
                },
            );
        }
        let bind = Instr { op: Op::Bind, res: dst, left: rg, right: Reg::Const(0) };
        proof {
            assert(reg_wire_ok(rg));
            assert(instr_wire_ok(bind));
            assert(instrs@ + seq![bind] =~= instrs@.push(bind));
            assert(instrs@.push(bind).subrange(0, old(instrs)@.len() as int) =~= instrs@.subrange(
                0,
                old(instrs)@.len() as int,
            ));
        }
        instrs.push(bind);
        Ok((i0 + 4, tmp0))
    }
}

/// Compile a measurement source: tokenize, parse the declarations,
/// resolve names (permanents in declaration order, implicits from the
/// datapath vocabulary, scratch registers for chain steps), check types,
/// and emit the instruction sequence. Deterministic: the result is
/// exactly `compile_spec` of the source bytes.
pub fn compile(src: &[u8]) -> (r: Result<(Bin, Scope), CompileError>)
    ensures
        match compile_spec(src@) {
            Ok(out) => (r matches Ok(p) && p.0.0@ == out.0 && p.1@ == out.1),
            Err(e) => (r matches Err(e2) && e2 == e),
        },
        r matches Ok(p) ==> scope_wf(p.1@),
        r matches Ok(p) ==> (forall|k: int|
            0 <= k < p.0.0@.len() ==> instr_wire_ok(#[trigger] p.0.0@[k])),
{
    let toks = match tokenize(src) {
        Ok(ts) => ts,
        Err(e) => {
            return Err(e);
        },
    };
    let n = toks.len();
    let mut env: Vec<(usize, usize, u32)> = Vec::new();
    let mut instrs: Vec<Instr> = Vec::new();
    let mut tmp: u32 = 0;
    let mut i: usize = 0;
    while i < n
        invariant
            n == toks@.len(),
            i <= n,
            tokenize_at(src@, 0) == Ok::<Seq<Token>, CompileError>(toks@),
            forall|k: int| 0 <= k < toks@.len() ==> tok_in_range(#[trigger] toks@[k], src@.len()),
            env_in_range(env@, src@.len()),
            forall|k: int| 0 <= k < env@.len() ==> (#[trigger] env@[k]).2 == k,
            forall|a: int, b: int|
                0 <= a < b < env@.len() ==> name_at(src@, (#[trigger] env@[a]).0, env@[a].1)
                    != name_at(src@, (#[trigger] env@[b]).0, env@[b].1),
            forall|k: int| 0 <= k < instrs@.len() ==> instr_wire_ok(#[trigger] instrs@[k]),
            decls_at(src@, toks@, 0, Seq::empty(), 0, Seq::empty()) == decls_at(
                src@,
                toks@,
                i as nat,
                env@,
                tmp,
                instrs@,
            ),
        decreases n - i,
    {
        let ghost env0 = env@;
        let ghost instrs0 = instrs@;
        match decl_x(src, &toks, i, &mut env, tmp, &mut instrs) {
            Ok(out) => {
                proof {
                    assert forall|k: int| 0 <= k < instrs@.len() implies instr_wire_ok(
                        #[trigger] instrs@[k],
                    ) by {
                        if k < instrs0.len() {
                            assert(instrs@[k] == instrs@.subrange(0, instrs0.len() as int)[k]);
                        }
                    }
                    assert forall|a: int, b: int| 0 <= a < b < env@.len() implies name_at(
                        src@,
                        (#[trigger] env@[a]).0,
                        env@[a].1,
                    ) != name_at(src@, (#[trigger] env@[b]).0, env@[b].1) by {
                        if b < env0.len() {
                            assert(env@[a] == env0[a] && env@[b] == env0[b]);
                        } else {
                            assert(env@[b] == env@.last());
                            assert(env@[a] == env0[a]);
                        }
                    }
                    assert forall|k: int| 0 <= k < env@.len() implies (#[trigger] env@[k]).2
                        == k by {
                        if k < env0.len() {
                            assert(env@[k] == env0[k]);
                        } else {
                            assert(env@[k] == env@.last());
                        }
                    }
                }
                i = out.0;
                tmp = out.1;
            },
            Err(e) => {
                return Err(e);
            },
        }
    }
    let mut sc = Scope::new();
    let ns = src.len();
    let ne = env.len();
    let mut k: usize = 0;
    while k < ne
        invariant
            ne == env@.len(),
            ns == src@.len(),
            k <= ne,
            env_in_range(env@, src@.len()),
            forall|j: int| 0 <= j < env@.len() ==> (#[trigger] env@[j]).2 == j,
            forall|a: int, b: int|
                0 <= a < b < env@.len() ==> name_at(src@, (#[trigger] env@[a]).0, env@[a].1)
                    != name_at(src@, (#[trigger] env@[b]).0, env@[b].1),
            forall|j: int| 0 <= j < instrs@.len() ==> instr_wire_ok(#[trigger] instrs@[j]),
            sc@ == scope_of(src@, env@.subrange(0, k as int)),
        decreases env@.len() - k,
    {
        let e = env[k];
        proof {
            assert(env@[k as int].0 + env@[k as int].1 <= src@.len());
        }
        let name = vstd::slice::slice_to_vec(vstd::slice::slice_subrange(src, e.0, e.0 + e.1));
        sc.push(name, Reg::Perm(e.2, Type::Num));
        proof {
            assert(sc@ =~= scope_of(src@, env@.subrange(0, k + 1)));
        }
        k += 1;
    }
    proof {
        assert(env@.subrange(0, env@.len() as int) =~= env@);
        assert forall|idx: int| 0 <= idx < sc@.len() implies (#[trigger] sc@[idx]).1 == Reg::Perm(
            idx as u32,
            Type::Num,
        ) && sc@[idx].0 == name_at(src@, env@[idx].0, env@[idx].1) by {
            assert(env@[idx].2 == idx);
        }
        assert(scope_wf(sc@));
    }
    Ok((Bin(instrs), sc))
}

/// When `find_perm` finds nothing, the looked-up name differs from every
/// declared one.
pub proof fn lemma_find_perm_none(
    s: Seq<u8>,
    env: Seq<(usize, usize, u32)>,
    pos: usize,
    len: usize,
)
    requires
        find_perm(s, env, pos, len) is None,
    ensures
        forall|k: int|
            0 <= k < env.len() ==> name_at(s, (#[trigger] env[k]).0, env[k].1) != name_at(
                s,
                pos,
                len,
            ),
    decreases env.len(),
{
    if env.len() > 0 {
        let tail = env.subrange(1, env.len() as int);
        lemma_find_perm_none(s, tail, pos, len);
        assert forall|k: int|
            1 <= k < env.len() implies name_at(s, (#[trigger] env[k]).0, env[k].1) != name_at(
            s,
            pos,
            len,
        ) by {
            assert(env[k] == tail[k - 1]);
        }
    }
}

/// Under pairwise-distinct names, looking up the `i`-th bound name finds
/// exactly the `i`-th binding.
pub proof fn lemma_scope_lookup_distinct(sc: Seq<(Seq<u8>, Reg)>, i: int)
    requires
        0 <= i < sc.len(),
        forall|a: int, b: int| 0 <= a < b < sc.len() ==> sc[a].0 != sc[b].0,
    ensures
        scope_lookup(sc, sc[i].0) == Some(sc[i].1),
    decreases sc.len(),
{
    if i > 0 {
        let tail = sc.subrange(1, sc.len() as int);
        assert forall|a: int, b: int| 0 <= a < b < tail.len() implies tail[a].0 != tail[b].0 by {
            assert(tail[a] == sc[a + 1]);
            assert(tail[b] == sc[b + 1]);
        }
        assert(tail[i - 1] == sc[i]);
        lemma_scope_lookup_distinct(tail, i - 1);
    }
}

/// A name bound by no entry looks up to nothing.
pub proof fn lemma_scope_lookup_none(sc: Seq<(Seq<u8>, Reg)>, name: Seq<u8>)
    requires
        forall|k: int| 0 <= k < sc.len() ==> (#[trigger] sc[k]).0 != name,
    ensures
        scope_lookup(sc, name) is None,
    decreases sc.len(),
{
    if sc.len() > 0 {
        let tail = sc.subrange(1, sc.len() as int);
        assert forall|k: int| 0 <= k < tail.len() implies (#[trigger] tail[k]).0 != name by {
            assert(tail[k] == sc[k + 1]);
        }
        lemma_scope_lookup_none(tail, name);
    }
}

/// A one-line account of a compile failure, for the unified error
/// carrier.
pub fn describe_compile_error(e: &CompileError) -> String {
    match e {
        CompileError::ParseError { .. } => "compile failed: parse error".to_owned(),
        CompileError::UnknownIdentifier { .. } => "compile failed: unknown identifier".to_owned(),
        CompileError::TypeMismatch { .. } => "compile failed: type mismatch".to_owned(),
        CompileError::TooManyPermanents => "compile failed: too many permanent registers".to_owned(),
        CompileError::TooManyTemporaries => "compile failed: too many scratch registers".to_owned(),
    }
}

} // verus!
