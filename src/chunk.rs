//! Decoding of a whole chunk: header, function prototypes and their constants.
use std::rc::Rc;
use vstd::prelude::*;

use crate::error::ChunkError;
use crate::instruction::{decode_word, VMInst};
use crate::reader::{be_u32_at, le_value, utf8_lossy, ChunkReader};

verus! {

/// The chunk signature: ESC 'L' 'u' 'a', read big-endian.
pub const LUA_MAGIC: u32 = 0x1B4C7561;

/// The one supported bytecode version (5.1).
pub const LUA_VERSION: u8 = 81;

/// The eight bytes after the signature. The size fields are recorded only: the decoder
/// always reads 4-byte integers and 8-byte sizes and numbers.
#[allow(non_snake_case)]
#[derive(Clone, Copy, Debug, PartialEq, Eq, Structural)]
pub struct ChunkHeader {
    pub version: u8,
    pub format_version: u8,
    pub endianness: u8,
    pub size_int: u8,
    pub size_t: u8,
    pub size_Inst: u8,
    pub size_luaNum: u8,
    pub integral_flag: u8,
}

/// The header fields taken from bytes 4..12 of `s`.
pub open spec fn header_fields(s: Seq<u8>) -> ChunkHeader {
    ChunkHeader {
        version: s[4],
        format_version: s[5],
        endianness: s[6],
        size_int: s[7],
        size_t: s[8],
        size_Inst: s[9],
        size_luaNum: s[10],
        integral_flag: s[11],
    }
}

/// What the first twelve bytes of `s` decode to as a header, version not yet checked.
pub open spec fn header_result(s: Seq<u8>) -> Result<ChunkHeader, ChunkError> {
    if s.len() < 4 {
        Err(ChunkError::Truncated)
    } else if be_u32_at(s, 0) != LUA_MAGIC as nat {
        Err(ChunkError::BadMagic(be_u32_at(s, 0) as u32))
    } else if s.len() < 12 {
        Err(ChunkError::Truncated)
    } else {
        Ok(header_fields(s))
    }
}

/// The header of `s` once its version is checked too.
pub open spec fn checked_header(s: Seq<u8>) -> Result<ChunkHeader, ChunkError> {
    match header_result(s) {
        Ok(h) => if h.version == LUA_VERSION {
            Ok(h)
        } else {
            Err(ChunkError::BadVersion(h.version))
        },
        Err(e) => Err(e),
    }
}

/// The twelve bytes that encode header `h` after the signature.
pub open spec fn header_bytes(h: ChunkHeader) -> Seq<u8> {
    seq![
        0x1Bu8,
        0x4Cu8,
        0x75u8,
        0x61u8,
        h.version,
        h.format_version,
        h.endianness,
        h.size_int,
        h.size_t,
        h.size_Inst,
        h.size_luaNum,
        h.integral_flag,
    ]
}

impl ChunkHeader {
    /// Reads the signature and the eight header bytes; refuses a version other than the
    /// supported one.
    pub fn from_reader(reader: &mut ChunkReader) -> (r: Result<ChunkHeader, ChunkError>)
        requires
            old(reader).wf(),
        ensures
            final(reader).wf(),
            final(reader).data() == old(reader).data(),
            final(reader).pos() <= old(reader).pos() + 12,
            r == checked_header(old(reader).rest()),
            r is Ok ==> final(reader).pos() == old(reader).pos() + 12,
    {
        let ghost s = reader.rest();
        let magic = match reader.read_bytes(4) {
            Ok(b) => b,
            Err(e) => return Err(e),
        };
        assert(magic@ == s.subrange(0, 4));
        let h = (magic[0] as u32) * 16777216 + (magic[1] as u32) * 65536 + (magic[2] as u32) * 256
            + (magic[3] as u32);
        if h != LUA_MAGIC {
            return Err(ChunkError::BadMagic(h));
        }
        let bytes = match reader.read_bytes(8) {
            Ok(b) => b,
            Err(e) => return Err(e),
        };
        if bytes[0] != LUA_VERSION {
            return Err(ChunkError::BadVersion(bytes[0]));
        }
        Ok(ChunkHeader {
            version: bytes[0],
            format_version: bytes[1],
            endianness: bytes[2],
            size_int: bytes[3],
            size_t: bytes[4],
            size_Inst: bytes[5],
            size_luaNum: bytes[6],
            integral_flag: bytes[7],
        })
    }
}

/// A decoded header gives back every field it was built from.
pub proof fn lemma_header_round_trip(h: ChunkHeader, rest: Seq<u8>)
    requires
        h.version == LUA_VERSION,
    ensures
        checked_header(header_bytes(h) + rest) == Ok::<ChunkHeader, ChunkError>(h),
{
    let s = header_bytes(h) + rest;
    assert(be_u32_at(s, 0) == LUA_MAGIC as nat);
    assert(header_fields(s) == h);
}

/// A stream whose signature or version is wrong is refused at the header.
pub proof fn lemma_bad_signature_rejected(s: Seq<u8>)
    requires
        s.len() >= 12,
        be_u32_at(s, 0) != LUA_MAGIC as nat || s[4] != LUA_VERSION,
    ensures
        checked_header(s) is Err,
        be_u32_at(s, 0) != LUA_MAGIC as nat ==> checked_header(s) == Err::<ChunkHeader, ChunkError>(
            ChunkError::BadMagic(be_u32_at(s, 0) as u32),
        ),
        be_u32_at(s, 0) == LUA_MAGIC as nat ==> checked_header(s) == Err::<ChunkHeader, ChunkError>(
            ChunkError::BadVersion(s[4]),
        ),
{
}

/// A constant of a prototype's pool. A number is held as the bit pattern of its
/// 64-bit float.
#[allow(non_camel_case_types)]
#[derive(Clone, Debug)]
pub enum LuaConstant {
    LUA_TNIL,
    LUA_TBOOLEAN(bool),
    LUA_TNUMBER(u64),
    LUA_TSTRING(String),
}

/// The text of a size-prefixed string field whose size `n` is read at `p - 8`.
pub open spec fn string_field(data: Seq<u8>, p: int, n: nat) -> Seq<char> {
    if n == 0 {
        Seq::empty()
    } else {
        utf8_lossy(data.subrange(p, p + n - 1))
    }
}

/// Byte length of the constant record at `p`, or why it cannot be read: an unknown tag,
/// or too few bytes.
pub open spec fn const_len(d: Seq<u8>, p: int) -> Result<int, ChunkError> {
    if p < 0 || p >= d.len() {
        Err(ChunkError::Truncated)
    } else if d[p] != 0 && d[p] != 1 && d[p] != 3 && d[p] != 4 {
        Err(ChunkError::UnknownConstant(d[p]))
    } else {
        let tag = d[p];
        let k: int = if tag == 0 {
            1
        } else if tag == 1 {
            2
        } else if tag == 3 {
            9
        } else if tag == 4 && p + 9 <= d.len() {
            9 + le_value(d, p + 1, 8) as int
        } else {
            0
        };
        if k > 0 && p + k <= d.len() {
            Ok(k)
        } else {
            Err(ChunkError::Truncated)
        }
    }
}

/// Constant `c` is what the record at `p` holds.
pub open spec fn const_matches(d: Seq<u8>, p: int, c: LuaConstant) -> bool {
    let tag = d[p];
    if tag == 0 {
        c is LUA_TNIL
    } else if tag == 1 {
        c == LuaConstant::LUA_TBOOLEAN(d[p + 1] != 0)
    } else if tag == 3 {
        c == LuaConstant::LUA_TNUMBER(le_value(d, p + 1, 8) as u64)
    } else {
        c matches LuaConstant::LUA_TSTRING(s) && s@ == string_field(d, p + 9, le_value(d, p + 1, 8))
    }
}

impl LuaConstant {
    /// Reads one constant: a tag byte (0 nil, 1 boolean, 3 number, 4 string), then its data.
    pub fn from_reader(reader: &mut ChunkReader) -> (r: Result<LuaConstant, ChunkError>)
        requires
            old(reader).wf(),
        ensures
            final(reader).wf(),
            final(reader).data() == old(reader).data(),
            final(reader).pos() >= old(reader).pos(),
            r is Ok <==> const_len(old(reader).data(), old(reader).pos() as int) is Ok,
            r matches Ok(c) ==> const_matches(old(reader).data(), old(reader).pos() as int, c)
                && final(reader).pos() as int == old(reader).pos() + const_len(
                old(reader).data(),
                old(reader).pos() as int,
            ).unwrap(),
            r matches Err(e) ==> const_len(old(reader).data(), old(reader).pos() as int) == Err::<
                int,
                ChunkError,
            >(e),
    {
        let x = match reader.read_byte() {
            Ok(x) => x,
            Err(e) => return Err(e),
        };
        proof {
            reveal_with_fuel(le_value, 2);
        }
        match x {
            0 => Ok(LuaConstant::LUA_TNIL),
            1 => match reader.read_boolean() {
                Ok(b) => Ok(LuaConstant::LUA_TBOOLEAN(b)),
                Err(e) => Err(e),
            },
            3 => match reader.read_number() {
                Ok(v) => Ok(LuaConstant::LUA_TNUMBER(v)),
                Err(e) => Err(e),
            },
            4 => match reader.read_string() {
                Ok(s) => {
                    assert(s@.len() == 0 ==> s@ =~= Seq::<char>::empty());
                    Ok(LuaConstant::LUA_TSTRING(s))
                },
                Err(e) => Err(e),
            },
            _ => Err(ChunkError::UnknownConstant(x)),
        }
    }
}

/// End of a list of `n` constant records that starts at `p`, or the first error in it.
pub open spec fn consts_end(d: Seq<u8>, p: int, n: nat) -> Result<int, ChunkError>
    decreases n,
{
    if n == 0 {
        Ok(p)
    } else {
        match consts_end(d, p, (n - 1) as nat) {
            Ok(e) => match const_len(d, e) {
                Ok(k) => Ok(e + k),
                Err(x) => Err(x),
            },
            Err(x) => Err(x),
        }
    }
}

/// `cs` are the constants of the well-formed list that starts at `p`.
pub open spec fn consts_match(d: Seq<u8>, p: int, cs: Seq<LuaConstant>) -> bool
    decreases cs.len(),
{
    if cs.len() == 0 {
        true
    } else {
        &&& consts_match(d, p, cs.drop_last())
        &&& consts_end(d, p, cs.len()) is Ok
        &&& const_matches(d, consts_end(d, p, (cs.len() - 1) as nat).unwrap(), cs.last())
    }
}

/// Once a constant list breaks, every longer list breaks with the same error.
proof fn lemma_consts_end_err(d: Seq<u8>, p: int, m: nat, n: nat)
    requires
        m <= n,
        consts_end(d, p, m) is Err,
    ensures
        consts_end(d, p, n) == consts_end(d, p, m),
    decreases n,
{
    if m < n {
        lemma_consts_end_err(d, p, m, (n - 1) as nat);
    }
}

/// One function record: metadata, instructions, constants and nested prototypes.
pub struct FunctionBlock {
    pub source_name: String,
    pub line_def: u32,
    pub last_line_def: u32,
    pub num_upval: u8,
    pub num_param: u8,
    pub is_vararg: u8,
    pub max_stack_size: u8,
    pub list_instructions: Vec<VMInst>,
    pub list_const: Vec<LuaConstant>,
    pub list_fnproto: Vec<Rc<FunctionBlock>>,
}

/// The words of a list of `n` instructions that starts at `p` decode to `insts`.
pub open spec fn instructions_at(data: Seq<u8>, p: int, n: nat, insts: Seq<VMInst>) -> bool {
    &&& insts.len() == n
    &&& forall|i: int|
        0 <= i < n ==> decode_word(#[trigger] le_value(data, p + 4 * i, 4) as u32) == Ok::<
            (crate::instruction::VMOpcode, Seq<crate::instruction::InstParam>),
            ChunkError,
        >(insts[i].spec_view())
}

/// Whether the `n` words from `p` on can be read and decoded, or the first error met.
pub open spec fn words_result(d: Seq<u8>, p: int, n: nat) -> Result<(), ChunkError>
    decreases n,
{
    if n == 0 {
        Ok(())
    } else {
        match words_result(d, p, (n - 1) as nat) {
            Ok(_) => {
                let i = p + 4 * (n - 1);
                if i + 4 > d.len() {
                    Err(ChunkError::Truncated)
                } else {
                    match decode_word(le_value(d, i, 4) as u32) {
                        Ok(_) => Ok(()),
                        Err(x) => Err(x),
                    }
                }
            },
            Err(x) => Err(x),
        }
    }
}

/// Once a list of words breaks, every longer list breaks with the same error.
proof fn lemma_words_err(d: Seq<u8>, p: int, m: nat, n: nat)
    requires
        m <= n,
        words_result(d, p, m) is Err,
    ensures
        words_result(d, p, n) == words_result(d, p, m),
    decreases n,
{
    if m < n {
        lemma_words_err(d, p, m, (n - 1) as nat);
    }
}

/// Reads a count, then that many instruction words.
fn read_instructions(reader: &mut ChunkReader) -> (r: Result<Vec<VMInst>, ChunkError>)
    requires
        old(reader).wf(),
    ensures
        final(reader).wf(),
        final(reader).data() == old(reader).data(),
        final(reader).pos() >= old(reader).pos(),
        r is Ok <==> old(reader).has(4) && words_result(
            old(reader).data(),
            old(reader).pos() as int + 4,
            old(reader).le_ahead(0, 4),
        ) is Ok,
        r matches Err(e) ==> if old(reader).has(4) {
            words_result(old(reader).data(), old(reader).pos() as int + 4, old(reader).le_ahead(0, 4))
                == Err::<(), ChunkError>(e)
        } else {
            e == ChunkError::Truncated
        },
        r matches Ok(v) ==> {
            let n = old(reader).le_ahead(0, 4);
            &&& instructions_at(old(reader).data(), old(reader).pos() as int + 4, n, v@)
            &&& final(reader).pos() == old(reader).pos() + 4 + 4 * n
        },
{
    let size = match reader.read_int() {
        Ok(n) => n,
        Err(e) => return Err(e),
    };
    let ghost d = reader.data();
    let ghost start = reader.pos();
    let mut list: Vec<VMInst> = Vec::new();
    let mut i: u32 = 0;
    while i < size
        invariant
            reader.wf(),
            reader.data() == d,
            d == old(reader).data(),
            start == old(reader).pos() + 4,
            i <= size,
            reader.pos() == start + 4 * i,
            instructions_at(d, start as int, i as nat, list@),
            words_result(d, start as int, i as nat) == Ok::<(), ChunkError>(()),
            size as nat == old(reader).le_ahead(0, 4),
        decreases size - i,
    {
        let w = match reader.read_int() {
            Ok(w) => w,
            Err(e) => {
                proof {
                    lemma_words_err(d, start as int, (i + 1) as nat, size as nat);
                }
                return Err(e);
            },
        };
        let inst = match VMInst::from_u32(w) {
            Ok(inst) => inst,
            Err(e) => {
                proof {
                    let x = le_value(d, start + 4 * i, 4);
                    assert(x as u32 == w);
                    lemma_words_err(d, start as int, (i + 1) as nat, size as nat);
                }
                return Err(e);
            },
        };
        proof {
            let x = le_value(d, start + 4 * i, 4);
            assert(x as u32 == w);
        }
        list.push(inst);
        i += 1;
        assert(instructions_at(d, start as int, i as nat, list@)) by {
            assert forall|j: int| 0 <= j < i implies decode_word(
                #[trigger] le_value(d, start + 4 * j, 4) as u32,
            ) == Ok::<
                (crate::instruction::VMOpcode, Seq<crate::instruction::InstParam>),
                ChunkError,
            >(list@[j].spec_view()) by {
                if j < i - 1 {
                } else {
                    assert(list@[j] == inst);
                }
            }
        }
    }
    Ok(list)
}

/// Reads a count, then that many constants.
fn read_constants(reader: &mut ChunkReader) -> (r: Result<Vec<LuaConstant>, ChunkError>)
    requires
        old(reader).wf(),
    ensures
        final(reader).wf(),
        final(reader).data() == old(reader).data(),
        final(reader).pos() >= old(reader).pos(),
        r is Ok <==> old(reader).has(4) && consts_end(
            old(reader).data(),
            old(reader).pos() as int + 4,
            old(reader).le_ahead(0, 4),
        ) is Ok,
        r matches Err(e) ==> if old(reader).has(4) {
            consts_end(old(reader).data(), old(reader).pos() as int + 4, old(reader).le_ahead(0, 4))
                == Err::<int, ChunkError>(e)
        } else {
            e == ChunkError::Truncated
        },
        r is Ok ==> final(reader).pos() >= old(reader).pos() + 4,
        r matches Ok(v) ==> {
            &&& v@.len() == old(reader).le_ahead(0, 4)
            &&& consts_match(old(reader).data(), old(reader).pos() as int + 4, v@)
            &&& final(reader).pos() as int == consts_end(
                old(reader).data(),
                old(reader).pos() as int + 4,
                v@.len(),
            ).unwrap()
        },
{
    let size = match reader.read_int() {
        Ok(n) => n,
        Err(e) => return Err(e),
    };
    let ghost d = reader.data();
    let ghost start = reader.pos() as int;
    let mut list: Vec<LuaConstant> = Vec::new();
    let mut i: u32 = 0;
    while i < size
        invariant
            reader.wf(),
            reader.data() == d,
            d == old(reader).data(),
            start == old(reader).pos() as int + 4,
            reader.pos() >= start,
            size as nat == old(reader).le_ahead(0, 4),
            i <= size,
            list@.len() == i,
            consts_end(d, start, i as nat) == Ok::<int, ChunkError>(reader.pos() as int),
            consts_match(d, start, list@),
        decreases size - i,
    {
        let c = match LuaConstant::from_reader(reader) {
            Ok(c) => c,
            Err(e) => {
                proof {
                    lemma_consts_end_err(d, start, (i + 1) as nat, size as nat);
                }
                return Err(e);
            },
        };
        let ghost prev = list@;
        list.push(c);
        i += 1;
        assert(list@.drop_last() =~= prev);
    }
    Ok(list)
}

/// End of the function record that starts at `p`, or the first error met in reading it.
pub open spec fn proto_end(d: Seq<u8>, p: int) -> Result<int, ChunkError>
    decreases d.len() - p, 0int, 0int,
{
    if p < 0 || p + 8 > d.len() {
        Err(ChunkError::Truncated)
    } else {
        let q = p + 8 + le_value(d, p, 8);
        let k = le_value(d, q + 12, 4);
        let c = q + 16 + 4 * k;
        if q + 16 > d.len() {
            Err(ChunkError::Truncated)
        } else {
            match words_result(d, q + 16, k) {
                Err(x) => Err(x),
                Ok(_) => if c + 4 > d.len() {
                    Err(ChunkError::Truncated)
                } else {
                    match consts_end(d, c + 4, le_value(d, c, 4)) {
                        Ok(e) => if c + 4 <= e && e + 4 <= d.len() {
                            match protos_end(d, e + 4, le_value(d, e, 4)) {
                                Ok(f) => if e + 4 <= f && f + 12 <= d.len() {
                                    Ok(f + 12)
                                } else {
                                    Err(ChunkError::Truncated)
                                },
                                Err(x) => Err(x),
                            }
                        } else {
                            Err(ChunkError::Truncated)
                        },
                        Err(x) => Err(x),
                    }
                },
            }
        }
    }
}

/// End of a list of `m` function records that starts at `p`, or the first error in it.
pub open spec fn protos_end(d: Seq<u8>, p: int, m: nat) -> Result<int, ChunkError>
    decreases d.len() - p, 1int, m,
{
    if p < 0 || p > d.len() {
        Err(ChunkError::Truncated)
    } else if m == 0 {
        Ok(p)
    } else {
        match protos_end(d, p, (m - 1) as nat) {
            Ok(e) => if p <= e <= d.len() {
                proto_end(d, e)
            } else {
                Err(ChunkError::Truncated)
            },
            Err(x) => Err(x),
        }
    }
}

/// `f` is what the well-formed function record at `p` holds, nested records included.
pub open spec fn proto_ok(d: Seq<u8>, p: int, f: FunctionBlock) -> bool
    decreases d.len() - p, 0int, 0int,
{
    if proto_end(d, p) is Err || p < 0 || p + 8 > d.len() {
        false
    } else {
        let n = le_value(d, p, 8);
        let q = p + 8 + n;
        let k = le_value(d, q + 12, 4);
        let c = q + 16 + 4 * k;
        let e = consts_end(d, c + 4, le_value(d, c, 4)).unwrap();
        &&& f.source_name@ == string_field(d, p + 8, n)
        &&& f.line_def as nat == le_value(d, q, 4)
        &&& f.last_line_def as nat == le_value(d, q + 4, 4)
        &&& f.num_upval == d[q + 8]
        &&& f.num_param == d[q + 9]
        &&& f.is_vararg == d[q + 10]
        &&& f.max_stack_size == d[q + 11]
        &&& instructions_at(d, q + 16, k, f.list_instructions@)
        &&& f.list_const@.len() == le_value(d, c, 4)
        &&& consts_match(d, c + 4, f.list_const@)
        &&& f.list_fnproto@.len() == le_value(d, e, 4)
        &&& if c + 4 <= e && e + 4 <= d.len() {
            protos_ok(d, e + 4, f.list_fnproto@.map_values(|x: Rc<FunctionBlock>| *x))
        } else {
            false
        }
    }
}

/// `fs` are what the well-formed list of function records at `p` holds.
pub open spec fn protos_ok(d: Seq<u8>, p: int, fs: Seq<FunctionBlock>) -> bool
    decreases d.len() - p, 1int, fs.len(),
{
    if p < 0 || p > d.len() {
        false
    } else if fs.len() == 0 {
        true
    } else {
        &&& protos_ok(d, p, fs.drop_last())
        &&& match protos_end(d, p, (fs.len() - 1) as nat) {
            Ok(e) => p <= e <= d.len() && proto_ok(d, e, fs.last()),
            Err(_) => false,
        }
    }
}

/// Once a list of function records breaks, every longer list breaks with the same error.
proof fn lemma_protos_end_err(d: Seq<u8>, p: int, m: nat, n: nat)
    requires
        m <= n,
        protos_end(d, p, m) is Err,
    ensures
        protos_end(d, p, n) == protos_end(d, p, m),
    decreases n,
{
    if m < n {
        lemma_protos_end_err(d, p, m, (n - 1) as nat);
    }
}

/// Reads a count, then that many nested prototypes.
fn read_prototypes(reader: &mut ChunkReader) -> (r: Result<Vec<Rc<FunctionBlock>>, ChunkError>)
    requires
        old(reader).wf(),
    ensures
        final(reader).wf(),
        final(reader).data() == old(reader).data(),
        final(reader).pos() >= old(reader).pos(),
        r is Ok <==> old(reader).has(4) && protos_end(
            old(reader).data(),
            old(reader).pos() as int + 4,
            old(reader).le_ahead(0, 4),
        ) is Ok,
        r matches Err(e) ==> if old(reader).has(4) {
            protos_end(old(reader).data(), old(reader).pos() as int + 4, old(reader).le_ahead(0, 4))
                == Err::<int, ChunkError>(e)
        } else {
            e == ChunkError::Truncated
        },
        r is Ok ==> final(reader).pos() >= old(reader).pos() + 4,
        r matches Ok(v) ==> {
            &&& v@.len() == old(reader).le_ahead(0, 4)
            &&& protos_ok(
                old(reader).data(),
                old(reader).pos() as int + 4,
                v@.map_values(|x: Rc<FunctionBlock>| *x),
            )
            &&& final(reader).pos() as int == protos_end(
                old(reader).data(),
                old(reader).pos() as int + 4,
                v@.len(),
            ).unwrap()
        },
    decreases old(reader).data().len() - old(reader).pos(), 0nat,
{
    let size = match reader.read_int() {
        Ok(n) => n,
        Err(e) => return Err(e),
    };
    let ghost d = reader.data();
    let ghost start = reader.pos() as int;
    let mut list: Vec<Rc<FunctionBlock>> = Vec::new();
    let mut i: u32 = 0;
    while i < size
        invariant
            reader.wf(),
            reader.data() == d,
            d == old(reader).data(),
            start == old(reader).pos() as int + 4,
            reader.pos() >= start,
            size as nat == old(reader).le_ahead(0, 4),
            i <= size,
            list@.len() == i,
            protos_end(d, start, i as nat) == Ok::<int, ChunkError>(reader.pos() as int),
            protos_ok(d, start, list@.map_values(|x: Rc<FunctionBlock>| *x)),
        decreases size - i,
    {
        let ghost at = reader.pos() as int;
        let f = match FunctionBlock::from_reader(reader) {
            Ok(f) => f,
            Err(e) => {
                proof {
                    lemma_protos_end_err(d, start, (i + 1) as nat, size as nat);
                }
                return Err(e);
            },
        };
        let ghost prev = list@.map_values(|x: Rc<FunctionBlock>| *x);
        list.push(Rc::new(f));
        i += 1;
        assert(list@.map_values(|x: Rc<FunctionBlock>| *x).drop_last() =~= prev);
        assert(list@.map_values(|x: Rc<FunctionBlock>| *x).last() == f);
    }
    Ok(list)
}

impl FunctionBlock {
    /// Reads one function record. After the nested prototypes, three 32-bit words of
    /// debug information are read and skipped; a record whose debug sections are not
    /// empty is therefore misread.
    pub fn from_reader(reader: &mut ChunkReader) -> (r: Result<FunctionBlock, ChunkError>)
        requires
            old(reader).wf(),
        ensures
            final(reader).wf(),
            final(reader).data() == old(reader).data(),
            final(reader).pos() >= old(reader).pos(),
            r is Ok <==> proto_end(old(reader).data(), old(reader).pos() as int) is Ok,
            r matches Err(e) ==> proto_end(old(reader).data(), old(reader).pos() as int) == Err::<
                int,
                ChunkError,
            >(e),
            r matches Ok(f) ==> proto_ok(old(reader).data(), old(reader).pos() as int, f)
                && final(reader).pos() as int == proto_end(
                old(reader).data(),
                old(reader).pos() as int,
            ).unwrap(),
        decreases old(reader).data().len() - old(reader).pos(), 1nat,
    {
        let ghost d = reader.data();
        let ghost p = reader.pos() as int;
        let source_name = match reader.read_string() {
            Ok(s) => s,
            Err(e) => return Err(e),
        };
        let ghost q = reader.pos() as int;
        assert(source_name@.len() == 0 ==> source_name@ =~= Seq::<char>::empty());
        let line_def = match reader.read_int() {
            Ok(v) => v,
            Err(e) => return Err(e),
        };
        let last_line_def = match reader.read_int() {
            Ok(v) => v,
            Err(e) => return Err(e),
        };
        let num_upval = match reader.read_byte() {
            Ok(v) => v,
            Err(e) => return Err(e),
        };
        let num_param = match reader.read_byte() {
            Ok(v) => v,
            Err(e) => return Err(e),
        };
        let is_vararg = match reader.read_byte() {
            Ok(v) => v,
            Err(e) => return Err(e),
        };
        let max_stack_size = match reader.read_byte() {
            Ok(v) => v,
            Err(e) => return Err(e),
        };
        assert(reader.pos() == q + 12);
        let list_instructions = match read_instructions(reader) {
            Ok(v) => v,
            Err(e) => return Err(e),
        };
        let ghost c = reader.pos() as int;
        let list_const = match read_constants(reader) {
            Ok(v) => v,
            Err(e) => return Err(e),
        };
        let ghost e = reader.pos() as int;
        let list_fnproto = match read_prototypes(reader) {
            Ok(v) => v,
            Err(e) => return Err(e),
        };
        let ghost f = reader.pos() as int;
        match reader.read_int() {
            Ok(_) => {},
            Err(e) => return Err(e),
        }
        match reader.read_int() {
            Ok(_) => {},
            Err(e) => return Err(e),
        }
        match reader.read_int() {
            Ok(_) => {},
            Err(e) => return Err(e),
        }
        proof {
            let n = le_value(d, p, 8);
            let k = le_value(d, q + 12, 4);
            assert(q == p + 8 + n);
            assert(c == q + 16 + 4 * k);
            assert(e == consts_end(d, c + 4, le_value(d, c, 4)).unwrap());
            assert(f == protos_end(d, e + 4, le_value(d, e, 4)).unwrap());
            assert(proto_end(d, p) == Ok::<int, ChunkError>(f + 12));
        }
        Ok(FunctionBlock {
            source_name,
            line_def,
            last_line_def,
            num_upval,
            num_param,
            is_vararg,
            max_stack_size,
            list_instructions,
            list_const,
            list_fnproto,
        })
    }
}

/// A decoded chunk: its header and its top-level function.
pub struct LuaChunk {
    pub header: ChunkHeader,
    pub func: FunctionBlock,
}

impl LuaChunk {
    /// Reads a whole chunk. A wrong signature or version is refused after at most the
    /// twelve header bytes, before any function record is read.
    pub fn from_reader(reader: &mut ChunkReader) -> (r: Result<LuaChunk, ChunkError>)
        requires
            old(reader).wf(),
        ensures
            final(reader).wf(),
            final(reader).data() == old(reader).data(),
            checked_header(old(reader).rest()) matches Err(e) ==> r == Err::<LuaChunk, ChunkError>(
                e,
            ) && final(reader).pos() <= old(reader).pos() + 12,
            r is Ok <==> checked_header(old(reader).rest()) is Ok && proto_end(
                old(reader).data(),
                old(reader).pos() as int + 12,
            ) is Ok,
            r matches Err(e) ==> match checked_header(old(reader).rest()) {
                Err(h) => e == h,
                Ok(_) => proto_end(old(reader).data(), old(reader).pos() as int + 12) == Err::<
                    int,
                    ChunkError,
                >(e),
            },
            r matches Ok(c) ==> checked_header(old(reader).rest()) == Ok::<ChunkHeader, ChunkError>(
                c.header,
            ) && proto_ok(old(reader).data(), old(reader).pos() as int + 12, c.func)
                && final(reader).pos() as int == proto_end(
                old(reader).data(),
                old(reader).pos() as int + 12,
            ).unwrap(),
    {
        let header = match ChunkHeader::from_reader(reader) {
            Ok(h) => h,
            Err(e) => return Err(e),
        };
        let func = match FunctionBlock::from_reader(reader) {
            Ok(f) => f,
            Err(e) => return Err(e),
        };
        Ok(LuaChunk { header, func })
    }
}

} // verus!
