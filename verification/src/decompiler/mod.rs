//! Main decompiler interface
//!
//! Entry point for decompiling EVM bytecode.

use vstd::prelude::*;
use std::collections::HashMap;
use crate::evm_core::types::{Exp, ExpV, evs, lemma_evs, Trace};
use crate::contract::Contract;
use crate::folder::fold;
use crate::folder::spec::fold_result;
use crate::function::Function;
use crate::function::keys::{sorted_keys, asc_keys};
use crate::loader::{Bytecode, HexDecode, decode_hex, disasm_from, is_disassembly, invalid_hex_message};
use crate::sparser::StorageVar;
use crate::vm::{VM, Code, code_of, code_map, run_spec, lemma_code_of_disassembly};
use crate::whiles::{make_whiles, make_whiles_spec};
use crate::text::{dec_string, dec_chars};
use crate::contract::sort_by_priority;

verus! {

broadcast use vstd::std_specs::hash::group_hash_axioms;

/// Decompiler configuration
#[derive(Debug, Clone)]
pub struct DecompilerConfig {
    /// Timeout in seconds
    pub timeout: u64,
    /// Only decompile specific function
    pub only_func_name: Option<String>,
    /// Web3 API URL (for address decompilation)
    pub rpc_url: Option<String>,
}

impl Default for DecompilerConfig {
    fn default() -> (r: Self)
        ensures
            r.timeout == 180,
            r.only_func_name is None,
            r.rpc_url is None,
    {
        Self { timeout: 180, only_func_name: None, rpc_url: None }
    }
}

/// Decompiler instance
#[derive(Debug)]
pub struct Decompiler {
    config: DecompilerConfig,
}

/// The trace that the decompiler makes of the code from `start`: the run,
/// its loops recovered, and folded.
pub open spec fn function_trace(code: Code, start: u64) -> Seq<ExpV> {
    fold_result(make_whiles_spec(run_spec(code, start, Seq::empty())))
}

/// The message for a request to decompile an address.
pub open spec fn address_message() -> Seq<char> {
    "Address decompilation requires Web3 RPC URL. Please provide bytecode directly."@
}

/// Whether `c` is the contract that the decompiler makes of the code: its
/// single function, of hash 0, built from the trace from position 0, and
/// post-processed.
pub open spec fn decompiled(c: Contract, code: Code) -> bool {
    &&& exists|f: Function|
        #[trigger] f.new_from(0, function_trace(code, 0)) && c.postprocessed_from(
            Map::<u64, Function>::empty().insert(0, f),
        )
    &&& c.problems_spec() == Map::<u64, String>::empty()
}

impl Decompiler {
    /// The configuration.
    pub closed spec fn config_spec(&self) -> DecompilerConfig {
        self.config
    }

    /// Create a new Decompiler with the given configuration
    pub fn new(config: DecompilerConfig) -> (r: Self)
        ensures
            r.config_spec() == config,
    {
        Self { config }
    }

    /// Decompile from bytecode (hex string)
    pub fn decompile_bytecode(&self, code: &str) -> (r: Result<Contract, String>)
        requires
            !(decode_hex(code) is Uncuttable),
        ensures
            match decode_hex(code) {
                HexDecode::Bytes(bin) => r matches Ok(c) && decompiled(c, code_map(disasm_from(bin, 0))),
                HexDecode::BadDigit(i) => r matches Err(msg) && msg@ == invalid_hex_message(i),
                HexDecode::Uncuttable => false,
            },
    {
        let bytecode = match Bytecode::load(code) {
            Ok(b) => b,
            Err(msg) => return Err(msg),
        };
        proof {
            if let HexDecode::Bytes(bin) = decode_hex(code) {
                lemma_code_of_disassembly(bytecode.ops@, disasm_from(bin, 0));
            }
        }
        let ghost cd = code_of(bytecode.ops@);
        let func_infos = match self.find_functions(&bytecode) {
            Ok(v) => v,
            Err(msg) => return Err(msg),
        };
        if func_infos.len() == 0 {
            return self.decompile_single_function(&bytecode, 0, 0);
        }
        let mut functions: HashMap<u64, Function> = HashMap::new();
        let mut i: usize = 0;
        while i < func_infos.len()
            invariant
                i <= func_infos@.len(),
                func_infos@.len() == 1,
                func_infos@[0].0 == 0,
                func_infos@[0].1 == 0,
                cd == code_of(bytecode.ops@),
                i == 0 ==> functions@ == Map::<u64, Function>::empty(),
                i == 1 ==> exists|f: Function|
                    #[trigger] f.new_from(0, function_trace(cd, 0)) && functions@
                        == Map::<u64, Function>::empty().insert(0, f),
            decreases func_infos@.len() - i,
        {
            let pos = func_infos[i].0;
            let hash = func_infos[i].1;
            let trace = match self.run_function_tracing(&bytecode, pos) {
                Ok(t) => t,
                Err(msg) => return Err(msg),
            };
            let trace_with_whiles = make_whiles(trace, self.config.timeout);
            let trace_folded = fold(trace_with_whiles);
            let func = Function::new(hash as u32, trace_folded);
            let ghost f = func;
            functions.insert(hash as u64, func);
            assert(f.new_from(0, function_trace(cd, 0)));
            i += 1;
        }
        let mut contract = Contract::new();
        let ks = sorted_keys(&functions);
        let ghost m = functions@;
        proof {
            let f = choose|f: Function|
                #[trigger] f.new_from(0, function_trace(cd, 0)) && m == Map::<u64, Function>::empty().insert(0, f);
            assert(m.dom() =~= set![0u64]);
        }
        let mut j: usize = 0;
        while j < ks.len()
            invariant
                j <= ks@.len(),
                ks@ == asc_keys(m.dom()),
                ks@.to_set() == m.dom(),
                crate::function::keys::is_ascending(ks@),
                m.dom() == set![0u64],
                cd == code_of(bytecode.ops@),
                exists|f: Function|
                    #[trigger] f.new_from(0, function_trace(cd, 0)) && m == Map::<u64, Function>::empty().insert(0, f),
                forall|k: u64| #[trigger] functions@.contains_key(k) ==> m.contains_key(k) && functions@[k] == m[k],
                forall|q: int| j <= q < ks@.len() ==> functions@.contains_key(#[trigger] ks@[q]),
                j == 0 ==> contract.funcs() == Map::<u64, Function>::empty(),
                j > 0 ==> contract.funcs() == m,
                contract.problems_spec() == Map::<u64, String>::empty(),
            decreases ks@.len() - j,
        {
            let k = ks[j];
            assert(ks@.to_set().contains(k)) by {
                assert(ks@[j as int] == k);
            }
            match functions.remove(&k) {
                Some(func) => {
                    assert(k == 0);
                    assert(func.hash as u64 == 0) by {
                        let f = choose|f: Function| #[trigger] f.new_from(0, function_trace(cd, 0)) && m == Map::<u64, Function>::empty().insert(0, f);
                    }
                    contract.add_function(func);
                    assert(contract.funcs() =~= m);
                },
                None => {
                    assert(false);
                },
            }
            proof {
                assert forall|q: int| j + 1 <= q < ks@.len() implies functions@.contains_key(#[trigger] ks@[q]) by {
                    assert(ks@[j as int] < ks@[q]);
                }
            }
            j += 1;
        }
        proof {
            assert(ks@.len() == 1) by {
                assert(ks@.to_set().contains(0u64));
                let w = choose|w: int| 0 <= w < ks@.len() && ks@[w] == 0u64;
                if ks@.len() > 1 {
                    let other = if w == 0 { 1int } else { 0int };
                    assert(ks@.to_set().contains(ks@[other]));
                    assert(ks@[other] != ks@[w]);
                }
            }
        }
        let ghost before = contract.funcs();
        contract.postprocess();
        Ok(contract)
    }

    /// Finds the function entries; as none is recognised yet, the entry
    /// point stands for the whole code, with hash 0.
    fn find_functions(&self, bytecode: &Bytecode) -> (r: Result<Vec<(u64, u128, Vec<Exp>)>, String>)
        ensures
            r matches Ok(v) && v@.len() == 1 && v@[0].0 == 0 && v@[0].1 == 0 && v@[0].2@.len() == 0,
    {
        let mut vm = VM::with_fdests_mode(bytecode.clone());
        let functions = vm.find_functions();
        if functions.len() == 0 {
            return Ok(vec![(0, 0, Vec::new())]);
        }
        Ok(functions)
    }

    /// Runs the code from `start_pos`.
    fn run_function_tracing(&self, bytecode: &Bytecode, start_pos: u64) -> (r: Result<Trace, String>)
        ensures
            r matches Ok(t) && evs(t@) == run_spec(code_of(bytecode.ops@), start_pos, Seq::empty()),
    {
        let timeout_ms = self.config.timeout.wrapping_mul(1000);
        let mut vm = VM::with_timeout(bytecode.clone(), timeout_ms);
        let empty: Vec<Exp> = Vec::new();
        assert(evs(empty@) =~= Seq::<ExpV>::empty()) by {
            lemma_evs(empty@);
        }
        let trace = vm.run_from(start_pos, empty, None);
        Ok(trace)
    }

    /// Decompiles the code from `start_pos` as a single function.
    fn decompile_single_function(&self, bytecode: &Bytecode, start_pos: u64, hash: u64) -> (r: Result<
        Contract,
        String,
    >)
        ensures
            r matches Ok(c) && exists|f: Function|
                #[trigger] f.new_from(hash as u32, function_trace(code_of(bytecode.ops@), start_pos))
                    && c.postprocessed_from(Map::<u64, Function>::empty().insert(f.hash as u64, f)),
    {
        let trace = match self.run_function_tracing(bytecode, start_pos) {
            Ok(t) => t,
            Err(msg) => return Err(msg),
        };
        let trace_with_whiles = make_whiles(trace, self.config.timeout);
        let trace_folded = fold(trace_with_whiles);
        let func = Function::new(hash as u32, trace_folded);
        let ghost f = func;
        assert(f.new_from(hash as u32, function_trace(code_of(bytecode.ops@), start_pos)));
        let mut contract = Contract::new();
        contract.add_function(func);
        assert(contract.funcs() =~= Map::<u64, Function>::empty().insert(f.hash as u64, f));
        contract.postprocess();
        Ok(contract)
    }

    /// Decompile from contract address: this needs a Web3 endpoint, which is
    /// not supported, so the request is refused.
    pub fn decompile_address(&self, _address: &str) -> (r: Result<Contract, String>)
        ensures
            r matches Err(msg) && msg@ == address_message(),
    {
        Err(String::from_str("Address decompilation requires Web3 RPC URL. Please provide bytecode directly."))
    }
}

impl Default for Decompiler {
    fn default() -> (r: Self)
        ensures
            r.config_spec().timeout == 180,
            r.config_spec().only_func_name is None,
            r.config_spec().rpc_url is None,
    {
        Self::new(DecompilerConfig::default())
    }
}

/// Decompiles bytecode given as hexadecimal text, with the default configuration.
pub fn decompile_bytecode(code: &str) -> (r: Result<Contract, String>)
    requires
        !(decode_hex(code) is Uncuttable),
    ensures
        match decode_hex(code) {
            HexDecode::Bytes(bin) => r matches Ok(c) && decompiled(c, code_map(disasm_from(bin, 0))),
            HexDecode::BadDigit(i) => r matches Err(msg) && msg@ == invalid_hex_message(i),
            HexDecode::Uncuttable => false,
        },
{
    Decompiler::default().decompile_bytecode(code)
}

/// Whether a character is white space, as `char::is_whitespace` defines it:
/// the characters with the Unicode `White_Space` property.
pub open spec fn is_white(c: char) -> bool {
    let u = c as u32;
    ||| (0x9 <= u && u <= 0xD)
    ||| u == 0x20
    ||| u == 0x85
    ||| u == 0xA0
    ||| u == 0x1680
    ||| (0x2000 <= u && u <= 0x200A)
    ||| u == 0x2028
    ||| u == 0x2029
    ||| u == 0x202F
    ||| u == 0x205F
    ||| u == 0x3000
}

/// A text without its trailing white space.
pub open spec fn trim_end_spec(s: Seq<char>) -> Seq<char>
    decreases s.len(),
{
    if s.len() > 0 && is_white(s.last()) {
        trim_end_spec(s.drop_last())
    } else {
        s
    }
}

/// Trimming keeps a prefix of the text, drops only white space, and leaves
/// no white space at the end.
pub proof fn lemma_trim_end(s: Seq<char>)
    ensures
        trim_end_spec(s).len() <= s.len(),
        trim_end_spec(s) == s.subrange(0, trim_end_spec(s).len() as int),
        trim_end_spec(s).len() == 0 || !is_white(trim_end_spec(s).last()),
        forall|k: int| trim_end_spec(s).len() <= k < s.len() ==> is_white(#[trigger] s[k]),
    decreases s.len(),
{
    if s.len() > 0 && is_white(s.last()) {
        let t = s.drop_last();
        lemma_trim_end(t);
        assert(trim_end_spec(s) =~= s.subrange(0, trim_end_spec(s).len() as int));
        assert forall|k: int| trim_end_spec(s).len() <= k < s.len() implies is_white(#[trigger] s[k]) by {
            if k < t.len() {
                assert(t[k] == s[k]);
            }
        }
    } else {
        assert(s.subrange(0, s.len() as int) =~= s);
    }
}

/// The printout of a contract ends in no white space.
pub proof fn lemma_printout_has_no_trailing_white(c: Contract)
    ensures
        pretty_contract_spec(c).len() == 0 || !is_white(pretty_contract_spec(c).last()),
{
    let layout = if c.stor_defs_spec().len() > 0 {
        "## Storage Layout\n\n"@ + layout_text(c.stor_defs_spec()) + "\n"@
    } else {
        Seq::empty()
    };
    let ks = sort_by_priority(asc_keys(c.funcs().dom()), c.funcs());
    lemma_trim_end(
        layout + "## Functions\n\n"@ + functions_text(ks.map_values(|k: u64| c.funcs()[k])),
    );
}

/// The storage layout, a line per variable.
pub open spec fn layout_text(vs: Seq<StorageVar>) -> Seq<char>
    decreases vs.len(),
{
    if vs.len() == 0 {
        Seq::empty()
    } else {
        let v = vs.last();
        layout_text(vs.drop_last()) + "  "@ + v.var_type@ + " "@ + v.name@ + ": "@ + dec_chars(
            v.slot as nat,
        ) + "\n"@
    }
}

/// The printouts of the functions, each followed by an empty line.
pub open spec fn functions_text(fs: Seq<Function>) -> Seq<char>
    decreases fs.len(),
{
    if fs.len() == 0 {
        Seq::empty()
    } else {
        functions_text(fs.drop_last()) + fs.last().print_spec() + "\n\n"@
    }
}

/// The printout of a contract: its storage layout, if any, then its
/// functions by priority, without trailing white space.
pub open spec fn pretty_contract_spec(c: Contract) -> Seq<char> {
    let layout = if c.stor_defs_spec().len() > 0 {
        "## Storage Layout\n\n"@ + layout_text(c.stor_defs_spec()) + "\n"@
    } else {
        Seq::empty()
    };
    let ks = sort_by_priority(asc_keys(c.funcs().dom()), c.funcs());
    trim_end_spec(
        layout + "## Functions\n\n"@ + functions_text(ks.map_values(|k: u64| c.funcs()[k])),
    )
}

fn is_white_exec(c: char) -> (r: bool)
    ensures
        r == is_white(c),
{
    let u = c as u32;
    (0x9 <= u && u <= 0xD) || u == 0x20 || u == 0x85 || u == 0xA0 || u == 0x1680 || (0x2000 <= u
        && u <= 0x200A) || u == 0x2028 || u == 0x2029 || u == 0x202F || u == 0x205F || u == 0x3000
}

/// A text without its trailing white space.
fn trim_end(s: &str) -> (r: String)
    ensures
        r@ == trim_end_spec(s@),
{
    let mut n = s.unicode_len();
    assert(s@.subrange(0, n as int) =~= s@);
    while n > 0 && is_white_exec(s.get_char(n - 1))
        invariant
            n <= s@.len(),
            trim_end_spec(s@) == trim_end_spec(s@.subrange(0, n as int)),
        decreases n,
    {
        assert(s@.subrange(0, n as int).drop_last() =~= s@.subrange(0, n - 1));
        n -= 1;
    }
    String::from_str(s.substring_char(0, n))
}

/// Pretty print a contract to string
pub fn pretty_contract(contract: &Contract) -> (r: String)
    ensures
        r@ == pretty_contract_spec(*contract),
{
    proof {
        reveal_strlit("## Storage Layout\n\n");
        reveal_strlit("  ");
        reveal_strlit(" ");
        reveal_strlit(": ");
        reveal_strlit("\n");
    }
    let mut output = String::new();
    let defs = contract.stor_defs();
    if defs.len() > 0 {
        output.append("## Storage Layout\n\n");
        let mut i: usize = 0;
        let ghost start = output@;
        assert(defs@.subrange(0, 0) =~= Seq::<StorageVar>::empty());
        assert(start + layout_text(defs@.subrange(0, 0)) =~= start);
        while i < defs.len()
            invariant
                i <= defs@.len(),
                output@ == start + layout_text(defs@.subrange(0, i as int)),
            decreases defs@.len() - i,
        {
            let var = &defs[i];
            output.append("  ");
            output.append(var.var_type.as_str());
            output.append(" ");
            output.append(var.name.as_str());
            output.append(": ");
            let d = dec_string(var.slot as u128);
            output.append(d.as_str());
            output.append("\n");
            proof {
                assert(defs@.subrange(0, i + 1).drop_last() =~= defs@.subrange(0, i as int));
                assert(defs@.subrange(0, i + 1).last() == defs@[i as int]);
            }
            assert(output@ =~= start + layout_text(defs@.subrange(0, i + 1)));
            i += 1;
        }
        assert(defs@.subrange(0, defs@.len() as int) =~= defs@);
        output.append("\n");
    }
    let ghost layout = output@;
    output.append("## Functions\n\n");
    let ghost head = output@;
    let list = contract.functions_list();
    let ghost ks = sort_by_priority(asc_keys(contract.funcs().dom()), contract.funcs());
    let ghost fs = ks.map_values(|k: u64| contract.funcs()[k]);
    let mut j: usize = 0;
    assert(head + functions_text(fs.subrange(0, 0)) =~= head);
    while j < list.len()
        invariant
            j <= list@.len(),
            list@.len() == fs.len(),
            forall|q: int| 0 <= q < list@.len() ==> *#[trigger] list@[q] == fs[q],
            output@ == head + functions_text(fs.subrange(0, j as int)),
        decreases list@.len() - j,
    {
        let p = list[j].print();
        output.append(p.as_str());
        output.append("\n\n");
        proof {
            reveal_strlit("\n\n");
            assert(fs.subrange(0, j + 1).drop_last() =~= fs.subrange(0, j as int));
            assert(fs.subrange(0, j + 1).last() == fs[j as int]);
        }
        assert(output@ =~= head + functions_text(fs.subrange(0, j + 1)));
        j += 1;
    }
    assert(fs.subrange(0, fs.len() as int) =~= fs);
    proof {
        reveal_strlit("## Functions\n\n");
    }
    trim_end(output.as_str())
}

} // verus!
