use luavm::chunk::{ChunkHeader, FunctionBlock, LuaChunk, LuaConstant};
use luavm::error::ChunkError;
use luavm::instruction::{InstParam, InstParamType, VMInst, VMOpcode};
use luavm::reader::ChunkReader;

fn abc(op: u32, a: u32, b: u32, c: u32) -> u32 {
    op | (a << 6) | (c << 14) | (b << 23)
}

fn abx(op: u32, a: u32, bx: u32) -> u32 {
    op | (a << 6) | (bx << 14)
}

fn header_bytes(version: u8) -> Vec<u8> {
    vec![0x1B, 0x4C, 0x75, 0x61, version, 0, 1, 4, 8, 4, 8, 0]
}

fn push_u32(out: &mut Vec<u8>, v: u32) {
    out.extend_from_slice(&v.to_le_bytes());
}

fn push_str(out: &mut Vec<u8>, s: &str) {
    if s.is_empty() {
        out.extend_from_slice(&0u64.to_le_bytes());
    } else {
        out.extend_from_slice(&((s.len() + 1) as u64).to_le_bytes());
        out.extend_from_slice(s.as_bytes());
        out.push(0);
    }
}

/// One function record with the given instruction words and constants and no nested
/// prototypes; `nested` records are appended as its children.
fn function_bytes(name: &str, words: &[u32], consts: &[Vec<u8>], nested: &[Vec<u8>]) -> Vec<u8> {
    let mut out = Vec::new();
    push_str(&mut out, name);
    push_u32(&mut out, 3);
    push_u32(&mut out, 9);
    out.extend_from_slice(&[1, 2, 0, 7]);
    push_u32(&mut out, words.len() as u32);
    for w in words {
        push_u32(&mut out, *w);
    }
    push_u32(&mut out, consts.len() as u32);
    for c in consts {
        out.extend_from_slice(c);
    }
    push_u32(&mut out, nested.len() as u32);
    for n in nested {
        out.extend_from_slice(n);
    }
    push_u32(&mut out, 0);
    push_u32(&mut out, 0);
    push_u32(&mut out, 0);
    out
}

#[test]
fn reader_reads_little_endian_fields() {
    let mut r = ChunkReader::new(vec![0x78, 0x56, 0x34, 0x12, 1, 0, 0, 0, 0, 0, 0, 0x80, 0, 5]);
    assert_eq!(r.read_int(), Ok(0x12345678));
    assert_eq!(r.read_sizet(), Ok(0x8000_0000_0000_0001));
    assert_eq!(r.read_boolean(), Ok(false));
    assert_eq!(r.read_boolean(), Ok(true));
    assert_eq!(r.read_byte(), Err(ChunkError::Truncated));
    assert_eq!(r.remaining(), 0);
}

#[test]
fn reader_read_bytes_and_truncation() {
    let mut r = ChunkReader::new(vec![1, 2, 3]);
    assert_eq!(r.read_bytes(2), Ok(vec![1, 2]));
    assert_eq!(r.read_int(), Err(ChunkError::Truncated));
    assert_eq!(r.remaining(), 1);
    assert_eq!(r.read_byte(), Ok(3));
}

#[test]
fn reader_read_number_gives_float_bits() {
    let mut r = ChunkReader::new(2.5f64.to_le_bytes().to_vec());
    assert_eq!(r.read_number(), Ok(2.5f64.to_bits()));
}

#[test]
fn string_of_length_zero_is_empty_and_reads_nothing_more() {
    let mut bytes = 0u64.to_le_bytes().to_vec();
    bytes.push(0x41);
    let mut r = ChunkReader::new(bytes);
    assert_eq!(r.read_string(), Ok(String::new()));
    assert_eq!(r.remaining(), 1);
    assert_eq!(r.read_byte(), Ok(0x41));
}

#[test]
fn string_drops_its_terminator() {
    let mut bytes = 4u64.to_le_bytes().to_vec();
    bytes.extend_from_slice(b"abc\0z");
    let mut r = ChunkReader::new(bytes);
    assert_eq!(r.read_string(), Ok("abc".to_string()));
    assert_eq!(r.remaining(), 1);
}

#[test]
fn string_longer_than_stream_is_truncated() {
    let mut bytes = 10u64.to_le_bytes().to_vec();
    bytes.extend_from_slice(b"abc");
    let mut r = ChunkReader::new(bytes);
    assert_eq!(r.read_string(), Err(ChunkError::Truncated));
}

#[test]
fn string_invalid_utf8_is_replaced() {
    let mut bytes = 3u64.to_le_bytes().to_vec();
    bytes.extend_from_slice(&[0x61, 0xFF, 0]);
    let mut r = ChunkReader::new(bytes);
    assert_eq!(r.read_string(), Ok("a\u{FFFD}".to_string()));
}

#[test]
fn header_round_trip_keeps_every_field() {
    let bytes = vec![0x1B, 0x4C, 0x75, 0x61, 81, 7, 0, 4, 8, 4, 8, 1, 99];
    let mut r = ChunkReader::new(bytes);
    let h = ChunkHeader::from_reader(&mut r).unwrap();
    assert_eq!(
        h,
        ChunkHeader {
            version: 81,
            format_version: 7,
            endianness: 0,
            size_int: 4,
            size_t: 8,
            size_Inst: 4,
            size_luaNum: 8,
            integral_flag: 1,
        }
    );
    assert_eq!(r.remaining(), 1);
}

#[test]
fn header_with_wrong_magic_is_refused() {
    let mut r = ChunkReader::new(vec![0x1B, 0x4C, 0x75, 0x62, 81, 0, 1, 4, 8, 4, 8, 0]);
    assert_eq!(ChunkHeader::from_reader(&mut r), Err(ChunkError::BadMagic(0x1B4C7562)));
}

#[test]
fn header_with_wrong_version_is_refused() {
    let mut r = ChunkReader::new(header_bytes(82));
    assert_eq!(ChunkHeader::from_reader(&mut r), Err(ChunkError::BadVersion(82)));
    assert_eq!(r.remaining(), 0);
}

#[test]
fn function_without_trailing_words_is_truncated() {
    let mut bytes = function_bytes("", &[], &[], &[]);
    bytes.truncate(bytes.len() - 4);
    let mut r = ChunkReader::new(bytes);
    assert!(matches!(FunctionBlock::from_reader(&mut r), Err(ChunkError::Truncated)));
}

#[test]
fn header_too_short_is_truncated() {
    let mut r = ChunkReader::new(vec![0x1B, 0x4C, 0x75, 0x61, 81]);
    assert_eq!(ChunkHeader::from_reader(&mut r), Err(ChunkError::Truncated));
}

#[test]
fn chunk_with_wrong_version_is_refused_before_the_function() {
    let mut bytes = header_bytes(82);
    bytes.extend_from_slice(&function_bytes("x", &[], &[], &[]));
    let mut r = ChunkReader::new(bytes);
    assert!(matches!(LuaChunk::from_reader(&mut r), Err(ChunkError::BadVersion(82))));
    assert!(r.remaining() > 0);
}

#[test]
fn chunk_with_wrong_magic_is_refused() {
    let mut bytes = vec![0, 0, 0, 0, 81, 0, 1, 4, 8, 4, 8, 0];
    bytes.extend_from_slice(&function_bytes("x", &[], &[], &[]));
    let mut r = ChunkReader::new(bytes);
    assert!(matches!(LuaChunk::from_reader(&mut r), Err(ChunkError::BadMagic(0))));
}

#[test]
fn chunk_decodes_prototype_tree() {
    let num = {
        let mut c = vec![3u8];
        c.extend_from_slice(&42.0f64.to_le_bytes());
        c
    };
    let text = {
        let mut c = vec![4u8];
        push_str(&mut c, "hi");
        c
    };
    let inner = function_bytes("", &[abc(30, 0, 1, 0)], &[vec![0u8]], &[]);
    let outer = function_bytes(
        "@main.lua",
        &[abx(1, 0, 0), abx(36, 1, 0), abc(30, 0, 2, 0)],
        &[num, text, vec![1u8, 1u8]],
        &[inner],
    );
    let mut bytes = header_bytes(81);
    bytes.extend_from_slice(&outer);
    let mut r = ChunkReader::new(bytes);
    let chunk = LuaChunk::from_reader(&mut r).unwrap();
    assert_eq!(r.remaining(), 0);
    let mut longer = header_bytes(81);
    longer.extend_from_slice(&outer);
    longer.push(0xAA);
    let mut r2 = ChunkReader::new(longer);
    assert!(LuaChunk::from_reader(&mut r2).is_ok());
    assert_eq!(r2.read_byte(), Ok(0xAA));
    assert_eq!(chunk.header.version, 81);
    let f = &chunk.func;
    assert_eq!(f.source_name, "@main.lua");
    assert_eq!((f.line_def, f.last_line_def), (3, 9));
    assert_eq!((f.num_upval, f.num_param, f.is_vararg, f.max_stack_size), (1, 2, 0, 7));
    assert_eq!(f.list_instructions.len(), 3);
    assert_eq!(f.list_instructions[1].opcode, VMOpcode::CLOSURE);
    assert!(matches!(f.list_const[0], LuaConstant::LUA_TNUMBER(n) if n == 42.0f64.to_bits()));
    assert!(matches!(&f.list_const[1], LuaConstant::LUA_TSTRING(s) if s == "hi"));
    assert!(matches!(f.list_const[2], LuaConstant::LUA_TBOOLEAN(true)));
    assert_eq!(f.list_fnproto.len(), 1);
    assert_eq!(f.list_fnproto[0].list_instructions[0].opcode, VMOpcode::RETURN);
    assert!(matches!(f.list_fnproto[0].list_const[0], LuaConstant::LUA_TNIL));
}

#[test]
fn unknown_constant_tag_is_refused() {
    let mut r = ChunkReader::new(vec![2, 0]);
    assert!(matches!(LuaConstant::from_reader(&mut r), Err(ChunkError::UnknownConstant(2))));
}

#[test]
fn function_with_unknown_opcode_is_refused() {
    let bytes = function_bytes("", &[38], &[], &[]);
    let mut r = ChunkReader::new(bytes);
    assert!(matches!(FunctionBlock::from_reader(&mut r), Err(ChunkError::UnknownOpcode(38))));
}

#[test]
fn opcode_numbers_map_to_opcodes() {
    assert_eq!(VMOpcode::from_num(0), Ok(VMOpcode::MOVE));
    assert_eq!(VMOpcode::from_num(12), Ok(VMOpcode::ADD));
    assert_eq!(VMOpcode::from_num(37), Ok(VMOpcode::VARARG));
    assert_eq!(VMOpcode::from_num(38), Err(ChunkError::UnknownOpcode(38)));
}

#[test]
fn param_types_follow_the_table() {
    assert_eq!(VMOpcode::MOVE.param_types(), vec![InstParamType::A, InstParamType::B]);
    assert_eq!(VMOpcode::LOADK.param_types(), vec![InstParamType::A, InstParamType::Bx]);
    assert_eq!(VMOpcode::JMP.param_types(), vec![InstParamType::sBx]);
    assert_eq!(VMOpcode::TEST.param_types(), vec![InstParamType::A, InstParamType::C]);
    assert_eq!(VMOpcode::FORLOOP.param_types(), vec![InstParamType::A, InstParamType::sBx]);
    assert_eq!(VMOpcode::CLOSE.param_types(), vec![InstParamType::A]);
    assert_eq!(
        VMOpcode::CALL.param_types(),
        vec![InstParamType::A, InstParamType::B, InstParamType::C]
    );
}

#[test]
fn every_opcode_decodes_to_its_shape() {
    for n in 0..38u32 {
        let w = abc(n, 0xAB, 0x1CD, 0x0EF);
        let inst = VMInst::from_u32(w).unwrap();
        let shape = inst.opcode.param_types();
        assert_eq!(inst.params.len(), shape.len());
        for (p, t) in inst.params.iter().zip(shape.iter()) {
            let expected = match t {
                InstParamType::A => InstParam::A(0xAB),
                InstParamType::B => InstParam::B(0x1CD),
                InstParamType::C => InstParam::C(0x0EF),
                InstParamType::Bx => InstParam::Bx((0x1CD << 9) | 0x0EF),
                InstParamType::sBx => InstParam::sBx(((0x1CD << 9) | 0x0EF) - 131071),
            };
            assert_eq!(*p, expected);
        }
    }
}

#[test]
fn operand_fields_are_masked_and_shifted() {
    let w = 0xFFFF_FFC0 | 12;
    assert_eq!(InstParam::parse(InstParamType::A, w), InstParam::A(0xFF));
    assert_eq!(InstParam::parse(InstParamType::B, w), InstParam::B(0x1FF));
    assert_eq!(InstParam::parse(InstParamType::C, w), InstParam::C(0x1FF));
    assert_eq!(InstParam::parse(InstParamType::Bx, w), InstParam::Bx(0x3FFFF));
    let inst = VMInst::from_u32(abc(12, 1, 0, 0x100)).unwrap();
    assert_eq!(inst.params, vec![InstParam::A(1), InstParam::B(0), InstParam::C(0x100)]);
}

#[test]
fn sbx_is_biased() {
    assert_eq!(InstParam::parse(InstParamType::sBx, 131071 << 14), InstParam::sBx(0));
    assert_eq!(InstParam::parse(InstParamType::sBx, 131072 << 14), InstParam::sBx(1));
    assert_eq!(InstParam::parse(InstParamType::sBx, 131070 << 14), InstParam::sBx(-1));
    assert_eq!(InstParam::parse(InstParamType::sBx, 0), InstParam::sBx(-131071));
    let jmp = VMInst::from_u32(abx(22, 0, 131073)).unwrap();
    assert_eq!(jmp.params[0].get_offset(), Some(2));
}

#[test]
fn get_num_val_reads_unsigned_operands() {
    assert_eq!(InstParam::A(5).get_num_val(), 5);
    assert_eq!(InstParam::Bx(70000).get_num_val(), 70000);
    assert_eq!(InstParam::C(3).get_offset(), None);
}

#[test]
fn unknown_opcode_word_is_refused() {
    assert!(matches!(VMInst::from_u32(63), Err(ChunkError::UnknownOpcode(63))));
}

#[test]
fn nested_record_errors_name_what_failed() {
    let bad_const = function_bytes("", &[], &[vec![9u8]], &[]);
    let outer = function_bytes("", &[], &[], &[bad_const]);
    let mut r = ChunkReader::new(outer);
    assert!(matches!(FunctionBlock::from_reader(&mut r), Err(ChunkError::UnknownConstant(9))));
    let bad_op = function_bytes("", &[abc(12, 0, 0, 0), 45], &[], &[]);
    let outer = function_bytes("", &[], &[], &[bad_op]);
    let mut r = ChunkReader::new(outer);
    assert!(matches!(FunctionBlock::from_reader(&mut r), Err(ChunkError::UnknownOpcode(45))));
}

#[test]
fn chunk_error_from_function_record_is_passed_on() {
    let mut bytes = header_bytes(81);
    bytes.extend_from_slice(&function_bytes("", &[63], &[], &[]));
    let mut r = ChunkReader::new(bytes);
    assert!(matches!(LuaChunk::from_reader(&mut r), Err(ChunkError::UnknownOpcode(63))));
}
