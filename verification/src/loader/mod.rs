//! Bytecode loader and disassembler

use vstd::prelude::*;
use std::collections::HashMap;
use crate::text::{str_eq, has_prefix, dec_string, dec_chars};
use vstd::string::StringSliceAdditionalSpecFns;

verus! {

broadcast use vstd::std_specs::hash::group_hash_axioms;

/// The name of a single-byte opcode outside the numbered families.
pub open spec fn single_byte_name(b: u8) -> Option<Seq<char>> {
    if b == 0x00 {
        Some("stop"@)
    } else if b == 0x01 {
        Some("add"@)
    } else if b == 0x02 {
        Some("mul"@)
    } else if b == 0x03 {
        Some("sub"@)
    } else if b == 0x04 {
        Some("div"@)
    } else if b == 0x05 {
        Some("sdiv"@)
    } else if b == 0x06 {
        Some("mod"@)
    } else if b == 0x07 {
        Some("smod"@)
    } else if b == 0x08 {
        Some("addmod"@)
    } else if b == 0x09 {
        Some("mulmod"@)
    } else if b == 0x0a {
        Some("exp"@)
    } else if b == 0x0b {
        Some("signextend"@)
    } else if b == 0x10 {
        Some("lt"@)
    } else if b == 0x11 {
        Some("gt"@)
    } else if b == 0x12 {
        Some("slt"@)
    } else if b == 0x13 {
        Some("sgt"@)
    } else if b == 0x14 {
        Some("eq"@)
    } else if b == 0x15 {
        Some("iszero"@)
    } else if b == 0x16 {
        Some("and"@)
    } else if b == 0x17 {
        Some("or"@)
    } else if b == 0x18 {
        Some("xor"@)
    } else if b == 0x19 {
        Some("not"@)
    } else if b == 0x1a {
        Some("byte"@)
    } else if b == 0x1b {
        Some("shl"@)
    } else if b == 0x1c {
        Some("shr"@)
    } else if b == 0x1d {
        Some("sar"@)
    } else if b == 0x20 {
        Some("sha3"@)
    } else if b == 0x30 {
        Some("address"@)
    } else if b == 0x31 {
        Some("balance"@)
    } else if b == 0x32 {
        Some("origin"@)
    } else if b == 0x33 {
        Some("caller"@)
    } else if b == 0x34 {
        Some("callvalue"@)
    } else if b == 0x35 {
        Some("calldataload"@)
    } else if b == 0x36 {
        Some("calldatasize"@)
    } else if b == 0x37 {
        Some("calldatacopy"@)
    } else if b == 0x38 {
        Some("codesize"@)
    } else if b == 0x39 {
        Some("codecopy"@)
    } else if b == 0x3a {
        Some("gasprice"@)
    } else if b == 0x3b {
        Some("extcodesize"@)
    } else if b == 0x3c {
        Some("extcodecopy"@)
    } else if b == 0x3d {
        Some("returndatasize"@)
    } else if b == 0x3e {
        Some("returndatacopy"@)
    } else if b == 0x3f {
        Some("extcodehash"@)
    } else if b == 0x40 {
        Some("blockhash"@)
    } else if b == 0x41 {
        Some("coinbase"@)
    } else if b == 0x42 {
        Some("timestamp"@)
    } else if b == 0x43 {
        Some("number"@)
    } else if b == 0x44 {
        Some("difficulty"@)
    } else if b == 0x45 {
        Some("gaslimit"@)
    } else if b == 0x46 {
        Some("chainid"@)
    } else if b == 0x47 {
        Some("selfbalance"@)
    } else if b == 0x48 {
        Some("basefee"@)
    } else if b == 0x50 {
        Some("pop"@)
    } else if b == 0x51 {
        Some("mload"@)
    } else if b == 0x52 {
        Some("mstore"@)
    } else if b == 0x53 {
        Some("mstore8"@)
    } else if b == 0x54 {
        Some("sload"@)
    } else if b == 0x55 {
        Some("sstore"@)
    } else if b == 0x56 {
        Some("jump"@)
    } else if b == 0x57 {
        Some("jumpi"@)
    } else if b == 0x58 {
        Some("pc"@)
    } else if b == 0x59 {
        Some("msize"@)
    } else if b == 0x5a {
        Some("gas"@)
    } else if b == 0x5b {
        Some("jumpdest"@)
    } else if b == 0xf0 {
        Some("create"@)
    } else if b == 0xf1 {
        Some("call"@)
    } else if b == 0xf2 {
        Some("callcode"@)
    } else if b == 0xf3 {
        Some("return"@)
    } else if b == 0xf4 {
        Some("delegatecall"@)
    } else if b == 0xf5 {
        Some("create2"@)
    } else if b == 0xfa {
        Some("staticcall"@)
    } else if b == 0xfd {
        Some("revert"@)
    } else if b == 0xfe {
        Some("invalid"@)
    } else if b == 0xff {
        Some("selfdestruct"@)
    } else {
        None
    }
}

/// The name of the opcode with byte value `b`, if it has one.
pub open spec fn opcode_name(b: u8) -> Option<Seq<char>> {
    if 0x60 <= b <= 0x7f {
        Some("push"@ + dec_chars((b - 0x5f) as nat))
    } else if 0x80 <= b <= 0x8f {
        Some("dup"@ + dec_chars((b - 0x7f) as nat))
    } else if 0x90 <= b <= 0x9f {
        Some("swap"@ + dec_chars((b - 0x8f) as nat))
    } else if 0xa0 <= b <= 0xa4 {
        Some("log"@ + dec_chars((b - 0xa0) as nat))
    } else {
        single_byte_name(b)
    }
}

/// The name shown for byte `b`: its opcode name, or `UNKNOWN`.
pub open spec fn lookup_name(b: u8) -> Seq<char> {
    match opcode_name(b) {
        Some(n) => n,
        None => "UNKNOWN"@,
    }
}

/// Every opcode name is found again backwards: a first byte carries it, no
/// later than any byte that has it, so looking a byte's name up backwards
/// never fails and gives a byte of the same name.
pub proof fn lemma_named_byte_found(b: u8)
    requires
        opcode_name(b) is Some,
    ensures
        exists|c: u8|
            #![trigger opcode_name(c)]
            c <= b && opcode_name(c) == opcode_name(b) && forall|d: u8|
                d < c ==> opcode_name(d) != opcode_name(b),
    decreases b,
{
    if exists|d: u8| d < b && opcode_name(d) == opcode_name(b) {
        let d = choose|d: u8| d < b && opcode_name(d) == opcode_name(b);
        lemma_named_byte_found(d);
        let c = choose|c: u8|
            #![trigger opcode_name(c)]
            c <= d && opcode_name(c) == opcode_name(d) && forall|e: u8|
                e < c ==> opcode_name(e) != opcode_name(d);
        assert(c <= b && opcode_name(c) == opcode_name(b));
    } else {
        assert(b <= b && opcode_name(b) == opcode_name(b));
    }
}

fn single_byte_str(b: u8) -> (r: Option<&'static str>)
    ensures
        match r {
            Some(s) => single_byte_name(b) == Some(s@),
            None => single_byte_name(b) is None,
        },
{
    if b == 0x00 {
        Some("stop")
    } else if b == 0x01 {
        Some("add")
    } else if b == 0x02 {
        Some("mul")
    } else if b == 0x03 {
        Some("sub")
    } else if b == 0x04 {
        Some("div")
    } else if b == 0x05 {
        Some("sdiv")
    } else if b == 0x06 {
        Some("mod")
    } else if b == 0x07 {
        Some("smod")
    } else if b == 0x08 {
        Some("addmod")
    } else if b == 0x09 {
        Some("mulmod")
    } else if b == 0x0a {
        Some("exp")
    } else if b == 0x0b {
        Some("signextend")
    } else if b == 0x10 {
        Some("lt")
    } else if b == 0x11 {
        Some("gt")
    } else if b == 0x12 {
        Some("slt")
    } else if b == 0x13 {
        Some("sgt")
    } else if b == 0x14 {
        Some("eq")
    } else if b == 0x15 {
        Some("iszero")
    } else if b == 0x16 {
        Some("and")
    } else if b == 0x17 {
        Some("or")
    } else if b == 0x18 {
        Some("xor")
    } else if b == 0x19 {
        Some("not")
    } else if b == 0x1a {
        Some("byte")
    } else if b == 0x1b {
        Some("shl")
    } else if b == 0x1c {
        Some("shr")
    } else if b == 0x1d {
        Some("sar")
    } else if b == 0x20 {
        Some("sha3")
    } else if b == 0x30 {
        Some("address")
    } else if b == 0x31 {
        Some("balance")
    } else if b == 0x32 {
        Some("origin")
    } else if b == 0x33 {
        Some("caller")
    } else if b == 0x34 {
        Some("callvalue")
    } else if b == 0x35 {
        Some("calldataload")
    } else if b == 0x36 {
        Some("calldatasize")
    } else if b == 0x37 {
        Some("calldatacopy")
    } else if b == 0x38 {
        Some("codesize")
    } else if b == 0x39 {
        Some("codecopy")
    } else if b == 0x3a {
        Some("gasprice")
    } else if b == 0x3b {
        Some("extcodesize")
    } else if b == 0x3c {
        Some("extcodecopy")
    } else if b == 0x3d {
        Some("returndatasize")
    } else if b == 0x3e {
        Some("returndatacopy")
    } else if b == 0x3f {
        Some("extcodehash")
    } else if b == 0x40 {
        Some("blockhash")
    } else if b == 0x41 {
        Some("coinbase")
    } else if b == 0x42 {
        Some("timestamp")
    } else if b == 0x43 {
        Some("number")
    } else if b == 0x44 {
        Some("difficulty")
    } else if b == 0x45 {
        Some("gaslimit")
    } else if b == 0x46 {
        Some("chainid")
    } else if b == 0x47 {
        Some("selfbalance")
    } else if b == 0x48 {
        Some("basefee")
    } else if b == 0x50 {
        Some("pop")
    } else if b == 0x51 {
        Some("mload")
    } else if b == 0x52 {
        Some("mstore")
    } else if b == 0x53 {
        Some("mstore8")
    } else if b == 0x54 {
        Some("sload")
    } else if b == 0x55 {
        Some("sstore")
    } else if b == 0x56 {
        Some("jump")
    } else if b == 0x57 {
        Some("jumpi")
    } else if b == 0x58 {
        Some("pc")
    } else if b == 0x59 {
        Some("msize")
    } else if b == 0x5a {
        Some("gas")
    } else if b == 0x5b {
        Some("jumpdest")
    } else if b == 0xf0 {
        Some("create")
    } else if b == 0xf1 {
        Some("call")
    } else if b == 0xf2 {
        Some("callcode")
    } else if b == 0xf3 {
        Some("return")
    } else if b == 0xf4 {
        Some("delegatecall")
    } else if b == 0xf5 {
        Some("create2")
    } else if b == 0xfa {
        Some("staticcall")
    } else if b == 0xfd {
        Some("revert")
    } else if b == 0xfe {
        Some("invalid")
    } else if b == 0xff {
        Some("selfdestruct")
    } else {
        None
    }
}

fn numbered(prefix: &str, n: u8) -> (r: String)
    ensures
        r@ == prefix@ + dec_chars(n as nat),
{
    let mut s = String::from_str(prefix);
    let d = dec_string(n as u128);
    s.append(d.as_str());
    s
}

/// The name of the opcode with byte value `b`.
fn opcode_name_string(b: u8) -> (r: Option<String>)
    ensures
        match r {
            Some(s) => opcode_name(b) == Some(s@),
            None => opcode_name(b) is None,
        },
{
    if 0x60 <= b && b <= 0x7f {
        Some(numbered("push", b - 0x5f))
    } else if 0x80 <= b && b <= 0x8f {
        Some(numbered("dup", b - 0x7f))
    } else if 0x90 <= b && b <= 0x9f {
        Some(numbered("swap", b - 0x8f))
    } else if 0xa0 <= b && b <= 0xa4 {
        Some(numbered("log", b - 0xa0))
    } else {
        match single_byte_str(b) {
            Some(s) => Some(String::from_str(s)),
            None => None,
        }
    }
}

/// The table of opcode names by byte value.
pub open spec fn opcode_table() -> Map<u8, Seq<char>> {
    Map::new(|b: u8| opcode_name(b) is Some, |b: u8| opcode_name(b)->0)
}

/// Opcode dictionary - maps byte values to opcode names
#[derive(Debug)]
pub struct OpcodeDict {
    /// Maps bytecode byte -> opcode name
    byte_to_op: HashMap<u8, String>,
}

impl View for OpcodeDict {
    type V = Map<u8, Seq<char>>;

    closed spec fn view(&self) -> Map<u8, Seq<char>> {
        Map::new(|b: u8| self.byte_to_op@.contains_key(b), |b: u8| self.byte_to_op@[b]@)
    }
}

impl OpcodeDict {
    #[verifier::type_invariant]
    spec fn wf(self) -> bool {
        forall|b: u8|
            #![trigger self.byte_to_op@.contains_key(b)]
            (self.byte_to_op@.contains_key(b) <==> opcode_name(b) is Some) && (
            self.byte_to_op@.contains_key(b) ==> Some(self.byte_to_op@[b]@) == opcode_name(b))
    }

    /// The dictionary of all EVM opcodes.
    pub fn new() -> (r: Self)
        ensures
            r@ == opcode_table(),
    {
        let mut byte_to_op: HashMap<u8, String> = HashMap::new();
        let mut b: u16 = 0;
        while b < 256
            invariant
                b <= 256,
                forall|c: u8|
                    #![trigger byte_to_op@.contains_key(c)]
                    (byte_to_op@.contains_key(c) <==> (c < b && opcode_name(c) is Some)) && (
                    byte_to_op@.contains_key(c) ==> Some(byte_to_op@[c]@) == opcode_name(c)),
            decreases 256 - b,
        {
            let byte = b as u8;
            if let Some(name) = opcode_name_string(byte) {
                byte_to_op.insert(byte, name);
            }
            b += 1;
        }
        let r = Self { byte_to_op };
        assert(r@ =~= opcode_table());
        r
    }

    /// The name of the opcode with byte value `byte`, or `UNKNOWN`.
    pub fn lookup(&self, byte: u8) -> (r: &str)
        ensures
            r@ == lookup_name(byte),
    {
        proof {
            use_type_invariant(self);
        }
        match self.byte_to_op.get(&byte) {
            Some(s) => {
                assert(self.byte_to_op@.contains_key(byte));
                s.as_str()
            },
            None => {
                assert(!self.byte_to_op@.contains_key(byte));
                "UNKNOWN"
            },
        }
    }

    /// The smallest byte value whose opcode has the given name.
    pub fn reverse_lookup(&self, name: &str) -> (r: Option<u8>)
        ensures
            match r {
                Some(b) => opcode_name(b) == Some(name@) && forall|c: u8|
                    c < b ==> opcode_name(c) != Some(name@),
                None => forall|c: u8| opcode_name(c) != Some(name@),
            },
    {
        proof {
            use_type_invariant(self);
        }
        let mut b: u16 = 0;
        while b < 256
            invariant
                b <= 256,
                forall|c: u8|
                    #![trigger self.byte_to_op@.contains_key(c)]
                    (self.byte_to_op@.contains_key(c) <==> opcode_name(c) is Some) && (
                    self.byte_to_op@.contains_key(c) ==> Some(self.byte_to_op@[c]@) == opcode_name(c)),
                forall|c: u8| c < b ==> opcode_name(c) != Some(name@),
            decreases 256 - b,
        {
            let byte = b as u8;
            match self.byte_to_op.get(&byte) {
                Some(s) => {
                    assert(self.byte_to_op@.contains_key(byte));
                    if str_eq(s.as_str(), name) {
                        return Some(byte);
                    }
                },
                None => {
                    assert(!self.byte_to_op@.contains_key(byte));
                },
            }
            b += 1;
        }
        None
    }
}

impl Clone for OpcodeDict {
    fn clone(&self) -> (r: Self) {
        proof {
            use_type_invariant(self);
        }
        Self { byte_to_op: self.byte_to_op.clone() }
    }
}

impl Default for OpcodeDict {
    fn default() -> Self {
        Self::new()
    }
}

/// An opcode with its position and optional parameter
#[derive(Debug)]
pub struct Op {
    pub pos: u64,
    pub opcode: String,
    pub param: Option<u64>,
}

impl Clone for Op {
    fn clone(&self) -> (r: Self)
        ensures
            r == *self,
    {
        Op { pos: self.pos, opcode: self.opcode.clone(), param: self.param }
    }
}

impl Op {
    pub fn new(pos: u64, opcode: &str, param: Option<u64>) -> (r: Self)
        ensures
            r.pos == pos,
            r.opcode@ == opcode@,
            r.param == param,
    {
        Self { pos, opcode: String::from_str(opcode), param }
    }
}

/// The value of an ASCII hexadecimal digit.
pub open spec fn hex_val(c: u8) -> Option<u8> {
    if 0x30 <= c <= 0x39 {
        Some((c - 0x30) as u8)
    } else if 0x61 <= c <= 0x66 {
        Some((c - 0x61 + 10) as u8)
    } else if 0x41 <= c <= 0x46 {
        Some((c - 0x41 + 10) as u8)
    } else {
        None
    }
}

/// The byte that two characters spell in base 16, as `u8::from_str_radix`
/// reads them: either two digits, or `+` and one digit.
pub open spec fn hex_pair(c0: u8, c1: u8) -> Option<u8> {
    if c0 == 0x2b {
        hex_val(c1)
    } else {
        match (hex_val(c0), hex_val(c1)) {
            (Some(a), Some(b)) => Some((a * 16 + b) as u8),
            _ => None,
        }
    }
}

/// Whether byte index `k` of UTF-8 text `b` starts a character (or is its end).
pub open spec fn is_boundary(b: Seq<u8>, k: int) -> bool {
    k == 0 || k == b.len() || (0 <= k < b.len() && !(0x80 <= b[k] < 0xc0))
}

/// The outcome of reading text as pairs of hexadecimal digits.
pub enum HexDecode {
    /// The bytes that the text spells.
    Bytes(Seq<u8>),
    /// The byte position of the first pair that is not a number.
    BadDigit(nat),
    /// The text cannot be cut into pairs of characters.
    Uncuttable,
}

/// Reads the pairs of text `b` from byte `i` on.
pub open spec fn decode_from(b: Seq<u8>, i: nat) -> HexDecode
    decreases b.len() - i,
{
    if i >= b.len() {
        HexDecode::Bytes(Seq::empty())
    } else if i + 2 > b.len() || !is_boundary(b, i as int) || !is_boundary(b, (i + 2) as int) {
        HexDecode::Uncuttable
    } else {
        match hex_pair(b[i as int], b[(i + 1) as int]) {
            None => HexDecode::BadDigit(i),
            Some(v) => match decode_from(b, i + 2) {
                HexDecode::Bytes(rest) => HexDecode::Bytes(seq![v] + rest),
                other => other,
            },
        }
    }
}

/// Text that reads as bytes holds two characters per byte.
pub proof fn lemma_decoded_length(b: Seq<u8>, i: nat)
    requires
        i <= b.len(),
        decode_from(b, i) is Bytes,
    ensures
        2 * (decode_from(b, i)->Bytes_0).len() == b.len() - i,
    decreases b.len() - i,
{
    if i < b.len() {
        lemma_decoded_length(b, i + 2);
    }
}

/// The text without a leading `0x`.
pub open spec fn strip_0x(b: Seq<u8>) -> Seq<u8> {
    if b.len() >= 2 && b[0] == 0x30 && b[1] == 0x78 {
        b.subrange(2, b.len() as int)
    } else {
        b
    }
}

/// The outcome of reading a hexadecimal string, with or without `0x`.
pub open spec fn decode_hex(hex: &str) -> HexDecode {
    decode_from(strip_0x(hex.spec_bytes()), 0)
}

/// The value of decimal digits, if all characters are digits.
pub open spec fn digits_value(s: Seq<char>) -> Option<nat>
    decreases s.len(),
{
    if s.len() == 0 {
        Some(0)
    } else {
        match digits_value(s.drop_last()) {
            Some(v) => if '0' <= s.last() <= '9' {
                Some((v * 10 + ((s.last() as int) - ('0' as int))) as nat)
            } else {
                None
            },
            None => None,
        }
    }
}

/// A byte-sized number read from text as `str::parse::<u8>` reads it.
pub open spec fn parse_u8_spec(s: Seq<char>) -> Option<u8> {
    let d = if s.len() > 0 && s[0] == '+' {
        s.drop_first()
    } else {
        s
    };
    if d.len() == 0 {
        None
    } else {
        match digits_value(d) {
            Some(v) => if v <= 255 {
                Some(v as u8)
            } else {
                None
            },
            None => None,
        }
    }
}

/// The number of data bytes that follow an opcode named `name`.
pub open spec fn push_words(name: Seq<char>) -> Option<u8> {
    if "push"@.is_prefix_of(name) {
        parse_u8_spec(name.subrange(4, name.len() as int))
    } else {
        None
    }
}

/// The big-endian number that bytes spell.
pub open spec fn be_value(bytes: Seq<u8>) -> nat
    decreases bytes.len(),
{
    if bytes.len() == 0 {
        0
    } else {
        be_value(bytes.drop_last()) * 256 + (bytes.last() as nat)
    }
}

/// The parameter of a push: its data bytes taken as a 64-bit number, the
/// high bytes wrapping away as they do in a release build.
pub open spec fn push_param(bytes: Seq<u8>) -> u64 {
    (be_value(bytes) % 0x1_0000_0000_0000_0000) as u64
}

/// The disassembly of a binary from byte `i` on: each opcode's name and parameter.
pub open spec fn disasm_from(bin: Seq<u8>, i: nat) -> Seq<(Seq<char>, Option<u64>)>
    decreases bin.len() - i,
{
    if i >= bin.len() {
        Seq::empty()
    } else {
        let name = lookup_name(bin[i as int]);
        match push_words(name) {
            Some(n) => if i + 1 + n <= bin.len() {
                seq![(name, Some(push_param(bin.subrange((i + 1) as int, (i + 1 + n) as int))))] + disasm_from(
                    bin,
                    (i + 1 + n) as nat,
                )
            } else {
                seq![(name, None::<u64>)] + disasm_from(bin, i + 1)
            },
            None => seq![(name, None::<u64>)] + disasm_from(bin, i + 1),
        }
    }
}

/// The positions of the `jumpdest` opcodes of a disassembly.
pub open spec fn jumpdest_positions(ops: Seq<(Seq<char>, Option<u64>)>) -> Seq<u64>
    decreases ops.len(),
{
    if ops.len() == 0 {
        Seq::empty()
    } else if ops.last().0 == "jumpdest"@ {
        jumpdest_positions(ops.drop_last()).push((ops.len() - 1) as u64)
    } else {
        jumpdest_positions(ops.drop_last())
    }
}

/// A map from positions holds exactly the opcodes of a disassembly.
pub open spec fn ops_match(m: Map<u64, Op>, d: Seq<(Seq<char>, Option<u64>)>) -> bool {
    &&& forall|p: u64| #[trigger] m.contains_key(p) <==> p < d.len()
    &&& forall|p: u64|
        #![trigger m[p]]
        p < d.len() ==> m[p].pos == p && m[p].opcode@ == d[p as int].0 && m[p].param == d[
            p as int].1
}

/// Disassembled bytecode
#[derive(Debug)]
pub struct Bytecode {
    /// Map from position to Op
    pub ops: HashMap<u64, Op>,
    /// Jump destinations
    pub jump_dests: Vec<u64>,
    /// Raw binary bytes
    pub binary: Vec<u8>,
}

impl Clone for Bytecode {
    fn clone(&self) -> (r: Self)
        ensures
            r.ops@ == self.ops@,
            r.jump_dests@ == self.jump_dests@,
            r.binary@ == self.binary@,
    {
        let jump_dests = self.jump_dests.clone();
        let binary = self.binary.clone();
        assert(jump_dests@ =~= self.jump_dests@);
        assert(binary@ =~= self.binary@);
        Bytecode { ops: self.ops.clone(), jump_dests, binary }
    }
}

fn hex_digit_value(c: u8) -> (r: Option<u8>)
    ensures
        r == hex_val(c),
{
    if 0x30 <= c && c <= 0x39 {
        Some(c - 0x30)
    } else if 0x61 <= c && c <= 0x66 {
        Some(c - 0x61 + 10)
    } else if 0x41 <= c && c <= 0x46 {
        Some(c - 0x41 + 10)
    } else {
        None
    }
}

fn parse_pair(c0: u8, c1: u8) -> (r: Option<u8>)
    ensures
        r == hex_pair(c0, c1),
{
    if c0 == 0x2b {
        hex_digit_value(c1)
    } else {
        match (hex_digit_value(c0), hex_digit_value(c1)) {
            (Some(a), Some(b)) => Some(a * 16 + b),
            _ => None,
        }
    }
}

fn strip_prefix_0x(b: &[u8]) -> (r: &[u8])
    ensures
        r@ == strip_0x(b@),
{
    if b.len() >= 2 && b[0] == 0x30 && b[1] == 0x78 {
        &b[2..b.len()]
    } else {
        b
    }
}

/// Whether reading `hex` would cut a character or leave a single character
/// at the end: such input makes the loader stop with a panic.
pub fn load_would_panic(hex: &str) -> (r: bool)
    ensures
        r == (decode_hex(hex) is Uncuttable),
{
    let b = strip_prefix_0x(hex.as_bytes());
    let ghost bs = b@;
    let mut i: usize = 0;
    while i < b.len()
        invariant
            bs == b@,
            bs == strip_0x(hex.spec_bytes()),
            i <= b@.len(),
            decode_from(bs, 0) is Uncuttable <==> decode_from(bs, i as nat) is Uncuttable,
        decreases b.len() - i,
    {
        if b.len() - i < 2 {
            return true;
        }
        let ok_start = i == 0 || !(0x80 <= b[i] && b[i] < 0xc0);
        let ok_end = i + 2 == b.len() || !(0x80 <= b[i + 2] && b[i + 2] < 0xc0);
        if !ok_start || !ok_end {
            return true;
        }
        match parse_pair(b[i], b[i + 1]) {
            None => {
                return false;
            },
            Some(_) => {},
        }
        i += 2;
    }
    false
}

fn parse_u8_dec(s: &str) -> (r: Option<u8>)
    ensures
        r == parse_u8_spec(s@),
{
    let n = s.unicode_len();
    let mut start: usize = 0;
    if n > 0 && s.get_char(0) == '+' {
        start = 1;
    }
    let ghost d = if s@.len() > 0 && s@[0] == '+' {
        s@.drop_first()
    } else {
        s@
    };
    assert(d =~= s@.subrange(start as int, n as int));
    if n == start {
        return None;
    }
    let mut v: u16 = 0;
    let mut i: usize = start;
    while i < n
        invariant
            start <= i <= n,
            n == s@.len(),
            start == s@.len() - d.len(),
            d == s@.subrange(start as int, n as int),
            d == (if s@.len() > 0 && s@[0] == '+' {
                s@.drop_first()
            } else {
                s@
            }),
            d.len() > 0,
            digits_value(d.subrange(0, i - start)) == Some(v as nat),
            v <= 255,
        decreases n - i,
    {
        let c = s.get_char(i);
        proof {
            assert(d.subrange(0, i + 1 - start).drop_last() =~= d.subrange(0, i - start));
            assert(d[i - start] == s@[i as int]);
            assert(d.subrange(0, i + 1 - start).last() == c);
        }
        if !('0' <= c && c <= '9') {
            proof {
                lemma_digits_none_extends(d, (i + 1 - start) as nat);
            }
            return None;
        }
        let digit = (c as u32 - '0' as u32) as u16;
        v = v * 10 + digit;
        if v > 255 {
            proof {
                lemma_digits_large_extends(d, (i + 1 - start) as nat);
            }
            return None;
        }
        i += 1;
    }
    assert(d.subrange(0, d.len() as int) =~= d);
    Some(v as u8)
}

pub(crate) proof fn lemma_digits_none_extends(d: Seq<char>, k: nat)
    requires
        k <= d.len(),
        digits_value(d.subrange(0, k as int)) is None,
    ensures
        digits_value(d) is None,
    decreases d.len() - k,
{
    if k < d.len() {
        assert(d.subrange(0, (k + 1) as int).drop_last() =~= d.subrange(0, k as int));
        lemma_digits_none_extends(d, k + 1);
    } else {
        assert(d.subrange(0, k as int) =~= d);
    }
}

proof fn lemma_digits_large_extends(d: Seq<char>, k: nat)
    requires
        k <= d.len(),
        digits_value(d.subrange(0, k as int)) is None || digits_value(d.subrange(0, k as int)).unwrap() > 255,
    ensures
        digits_value(d) is None || digits_value(d).unwrap() > 255,
    decreases d.len() - k,
{
    if k < d.len() {
        assert(d.subrange(0, (k + 1) as int).drop_last() =~= d.subrange(0, k as int));
        lemma_digits_large_extends(d, k + 1);
    } else {
        assert(d.subrange(0, k as int) =~= d);
    }
}

/// Digits whose value already passes `bound` spell, with more digits, no
/// number or one that passes it too.
pub(crate) proof fn lemma_digits_exceed_extends(d: Seq<char>, k: nat, bound: nat)
    requires
        k <= d.len(),
        digits_value(d.subrange(0, k as int)) is None || digits_value(d.subrange(0, k as int)).unwrap()
            > bound,
    ensures
        digits_value(d) is None || digits_value(d).unwrap() > bound,
    decreases d.len() - k,
{
    if k < d.len() {
        assert(d.subrange(0, (k + 1) as int).drop_last() =~= d.subrange(0, k as int));
        lemma_digits_exceed_extends(d, k + 1, bound);
    } else {
        assert(d.subrange(0, k as int) =~= d);
    }
}

/// A decoding outcome with bytes put in front of what it decoded.
pub open spec fn prefix_bytes(pre: Seq<u8>, d: HexDecode) -> HexDecode {
    match d {
        HexDecode::Bytes(rest) => HexDecode::Bytes(pre + rest),
        other => other,
    }
}

/// The message of a loader error at a byte position.
pub open spec fn invalid_hex_message(i: nat) -> Seq<char> {
    "Invalid hex at position "@ + dec_chars(i)
}

fn decode_bytes(hex: &str) -> (r: Result<Vec<u8>, String>)
    requires
        !(decode_hex(hex) is Uncuttable),
    ensures
        match decode_hex(hex) {
            HexDecode::Bytes(bin) => r matches Ok(v) && v@ == bin,
            HexDecode::BadDigit(i) => r matches Err(msg) && msg@ == invalid_hex_message(i),
            HexDecode::Uncuttable => false,
        },
{
    let b = strip_prefix_0x(hex.as_bytes());
    let ghost bs = b@;
    let mut binary: Vec<u8> = Vec::new();
    let mut i: usize = 0;
    assert(prefix_bytes(binary@, decode_from(bs, 0)) == decode_from(bs, 0)) by {
        if let HexDecode::Bytes(rest) = decode_from(bs, 0) {
            assert(binary@ + rest =~= rest);
        }
    }
    while i < b.len()
        invariant
            bs == b@,
            bs == strip_0x(hex.spec_bytes()),
            !(decode_from(bs, 0) is Uncuttable),
            i <= b@.len(),
            decode_from(bs, 0) == prefix_bytes(binary@, decode_from(bs, i as nat)),
        decreases b.len() - i,
    {
        match parse_pair(b[i], b[i + 1]) {
            None => {
                let mut msg = String::from_str("Invalid hex at position ");
                let d = dec_string(i as u128);
                msg.append(d.as_str());
                return Err(msg);
            },
            Some(v) => {
                proof {
                    if let HexDecode::Bytes(rest) = decode_from(bs, (i + 2) as nat) {
                        assert(binary@ + (seq![v] + rest) =~= binary@.push(v) + rest);
                    }
                }
                binary.push(v);
            },
        }
        i += 2;
    }
    assert(binary@ + Seq::<u8>::empty() =~= binary@);
    Ok(binary)
}

fn push_data_value(bin: &Vec<u8>, start: usize, n: usize) -> (r: u64)
    requires
        start + n <= bin@.len(),
    ensures
        r == push_param(bin@.subrange(start as int, start + n)),
{
    let mut val: u64 = 0;
    let mut j: usize = 0;
    let ghost m: int = 0x1_0000_0000_0000_0000;
    let len = bin.len();
    while j < n
        invariant
            len == bin@.len(),
            j <= n,
            start + n <= bin@.len(),
            m == 0x1_0000_0000_0000_0000,
            val as int == (be_value(bin@.subrange(start as int, start + j)) as int) % m,
        decreases n - j,
    {
        let byte = bin[start + j];
        let ghost old_val = val;
        val = val.wrapping_mul(256).wrapping_add(byte as u64);
        proof {
            let pre = bin@.subrange(start as int, start + j);
            let nxt = bin@.subrange(start as int, start + j + 1);
            assert(nxt.drop_last() =~= pre);
            assert(nxt.last() == byte);
            let e = be_value(pre) as int;
            assert(be_value(nxt) == e * 256 + byte);
            vstd::arithmetic::div_mod::lemma_mul_mod_noop_left(e, 256, m);
            vstd::arithmetic::div_mod::lemma_add_mod_noop(e * 256, byte as int, m);
            vstd::arithmetic::div_mod::lemma_small_mod(byte as nat, m as nat);
            let a = (e * 256) % m;
            assert(old_val.wrapping_mul(256) == a);
            vstd::arithmetic::div_mod::lemma_mod_bound(e * 256, m);
            if a + byte >= m {
                vstd::arithmetic::div_mod::lemma_fundamental_div_mod_converse(a + byte, m, 1, a + byte - m);
            } else {
                vstd::arithmetic::div_mod::lemma_small_mod((a + byte) as nat, m as nat);
            }
        }
        j += 1;
    }
    val
}

/// The bytecode that a decoding gives: its opcodes by position, the
/// positions of its jump destinations and its bytes.
pub open spec fn is_disassembly(bc: Bytecode, bin: Seq<u8>) -> bool {
    &&& bc.binary@ == bin
    &&& ops_match(bc.ops@, disasm_from(bin, 0))
    &&& bc.jump_dests@ == jumpdest_positions(disasm_from(bin, 0))
}

proof fn lemma_jumpdest_push(done: Seq<(Seq<char>, Option<u64>)>, x: (Seq<char>, Option<u64>))
    ensures
        jumpdest_positions(done.push(x)) == if x.0 == "jumpdest"@ {
            jumpdest_positions(done).push(done.len() as u64)
        } else {
            jumpdest_positions(done)
        },
{
    assert(done.push(x).drop_last() =~= done);
}

impl Bytecode {
    /// Reads hexadecimal text (with or without `0x`) and disassembles it.
    pub fn load(hex: &str) -> (r: Result<Self, String>)
        requires
            !(decode_hex(hex) is Uncuttable),
        ensures
            match decode_hex(hex) {
                HexDecode::Bytes(bin) => r matches Ok(bc) && is_disassembly(bc, bin),
                HexDecode::BadDigit(i) => r matches Err(msg) && msg@ == invalid_hex_message(i),
                HexDecode::Uncuttable => false,
            },
    {
        let binary = match decode_bytes(hex) {
            Ok(b) => b,
            Err(msg) => return Err(msg),
        };
        let ghost bin = binary@;
        let mut ops: HashMap<u64, Op> = HashMap::new();
        let mut jump_dests: Vec<u64> = Vec::new();
        let dict = OpcodeDict::new();
        let mut pos: u64 = 0;
        let mut i: usize = 0;
        let ghost mut done: Seq<(Seq<char>, Option<u64>)> = Seq::empty();
        let len = binary.len();
        assert(disasm_from(bin, 0) =~= done + disasm_from(bin, 0));
        while i < len
            invariant
                len == binary@.len(),
                bin == binary@,
                i <= len,
                pos as int == done.len(),
                pos <= i,
                disasm_from(bin, 0) == done + disasm_from(bin, i as nat),
                ops_match(ops@, done),
                jump_dests@ == jumpdest_positions(done),
            decreases len - i,
        {
            let byte = binary[i];
            let opcode = dict.lookup(byte);
            if str_eq(opcode, "jumpdest") {
                jump_dests.push(pos);
            }
            let mut param: Option<u64> = None;
            let ghost old_i = i;
            if has_prefix(opcode, "push") {
                proof {
                    reveal_strlit("push");
                }
                let suffix = opcode.substring_char(4, opcode.unicode_len());
                if let Some(num_words) = parse_u8_dec(suffix) {
                    let nw = num_words as usize;
                    if nw <= len - i - 1 {
                        param = Some(push_data_value(&binary, i + 1, nw));
                        i += nw;
                    }
                }
            }
            let ghost x = (lookup_name(byte), param);
            proof {
                lemma_jumpdest_push(done, x);
                assert(disasm_from(bin, old_i as nat) == seq![x] + disasm_from(bin, (i + 1) as nat));
                assert(done + disasm_from(bin, old_i as nat) =~= done.push(x) + disasm_from(
                    bin,
                    (i + 1) as nat,
                ));
            }
            ops.insert(pos, Op::new(pos, opcode, param));
            proof {
                done = done.push(x);
            }
            pos += 1;
            i += 1;
        }
        assert(disasm_from(bin, i as nat) =~= Seq::<(Seq<char>, Option<u64>)>::empty());
        assert(done + Seq::<(Seq<char>, Option<u64>)>::empty() =~= done);
        Ok(Self { ops, jump_dests, binary })
    }

    /// The opcode at position `pos`.
    pub fn get_op(&self, pos: u64) -> (r: Option<&Op>)
        ensures
            r is Some <==> self.ops@.contains_key(pos),
            r matches Some(op) ==> *op == self.ops@[pos],
    {
        self.ops.get(&pos)
    }

    /// The first position after `pos`, at most 1001 further on, that holds an opcode.
    pub fn next_pos(&self, pos: u64) -> (r: Option<u64>)
        requires
            pos <= u64::MAX - 1001,
        ensures
            match r {
                Some(p) => pos < p <= pos + 1001 && self.ops@.contains_key(p) && forall|q: u64|
                    pos < q < p ==> !#[trigger] self.ops@.contains_key(q),
                None => forall|q: u64| pos < q <= pos + 1001 ==> !#[trigger] self.ops@.contains_key(q),
            },
    {
        let current_pos = pos + 1;
        if self.ops.contains_key(&current_pos) {
            return Some(current_pos);
        }
        let mut p = current_pos;
        loop
            invariant
                pos < p <= pos + 1001,
                pos <= u64::MAX - 1001,
                forall|q: u64| pos < q < p ==> !#[trigger] self.ops@.contains_key(q),
            decreases pos + 1001 - p,
        {
            if self.ops.contains_key(&p) {
                return Some(p);
            }
            if p > pos + 1000 {
                return None;
            }
            p += 1;
        }
    }
}

} // verus!
