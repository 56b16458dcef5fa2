use vstd::prelude::*;

verus! {

// Encodings of the few x86-64 instructions that compiled functions use.
// Frame slots are addressed as `[rbp + disp32]` (ModRM mod = 10, rm = rbp).

pub open spec fn le32(v: u32) -> Seq<u8> {
    seq![
        (v & 0xff) as u8,
        ((v >> 8u32) & 0xff) as u8,
        ((v >> 16u32) & 0xff) as u8,
        ((v >> 24u32) & 0xff) as u8,
    ]
}

pub open spec fn le64(v: u64) -> Seq<u8> {
    seq![
        (v & 0xff) as u8,
        ((v >> 8u64) & 0xff) as u8,
        ((v >> 16u64) & 0xff) as u8,
        ((v >> 24u64) & 0xff) as u8,
        ((v >> 32u64) & 0xff) as u8,
        ((v >> 40u64) & 0xff) as u8,
        ((v >> 48u64) & 0xff) as u8,
        ((v >> 56u64) & 0xff) as u8,
    ]
}

/// ModRM bytes for `[rbp + disp32]` with the register field set to rax, rdx, rdi.
pub const RM_RAX: u8 = 0x85;
pub const RM_RDX: u8 = 0x95;
pub const RM_RDI: u8 = 0xBD;

/// `REX.W opc modrm disp32`: a 64-bit operation between a register and a frame slot.
pub open spec fn rbp_op(opc: u8, modrm: u8, d: u32) -> Seq<u8> {
    seq![0x48u8, opc, modrm] + le32(d)
}

/// `mov r64, imm64` (rax: 0xB8, rsi: 0xBE).
pub open spec fn mov_imm64(op: u8, v: u64) -> Seq<u8> {
    seq![0x48u8, op] + le64(v)
}

/// `mov r/m64, imm32` sign-extended, register form (rax: 0xC0, rdx: 0xC2).
pub open spec fn mov_imm32(modrm: u8, v: u32) -> Seq<u8> {
    seq![0x48u8, 0xC7u8, modrm] + le32(v)
}

/// `sub rsp, imm32` (0xEC) or `add rsp, imm32` (0xC4).
pub open spec fn rsp_adjust(modrm: u8, v: u32) -> Seq<u8> {
    seq![0x48u8, 0x81u8, modrm] + le32(v)
}

/// `imul rax, [rbp + d]`.
pub open spec fn imul_slot(d: u32) -> Seq<u8> {
    seq![0x48u8, 0x0Fu8, 0xAFu8, 0x85u8] + le32(d)
}

/// `cqo; idiv qword [rbp + d]`.
pub open spec fn idiv_slot(d: u32) -> Seq<u8> {
    seq![0x48u8, 0x99u8] + rbp_op(0xF7, RM_RDI, d)
}

/// `setcc al; movzx rax, al`.
pub open spec fn setcc_rax(cc: u8) -> Seq<u8> {
    seq![0x0Fu8, cc, 0xC0u8, 0x48u8, 0x0Fu8, 0xB6u8, 0xC0u8]
}

/// `xor rax, 1`.
pub open spec fn xor_rax_one() -> Seq<u8> {
    seq![0x48u8, 0x83u8, 0xF0u8, 0x01u8]
}

/// `call rax`.
pub open spec fn call_rax() -> Seq<u8> {
    seq![0xFFu8, 0xD0u8]
}

/// `jmp rel32`.
pub open spec fn jmp_rel(rel: u32) -> Seq<u8> {
    seq![0xE9u8] + le32(rel)
}

/// `jne rel32`.
pub open spec fn jne_rel(rel: u32) -> Seq<u8> {
    seq![0x0Fu8, 0x85u8] + le32(rel)
}

/// `test qword [rbp + d], 1`.
pub open spec fn test_slot_one(d: u32) -> Seq<u8> {
    rbp_op(0xF7, RM_RAX, d) + le32(1)
}

/// `mov rsp, rbp; pop rbp; ret`.
pub open spec fn leave_ret() -> Seq<u8> {
    seq![0x48u8, 0x89u8, 0xECu8, 0x5Du8, 0xC3u8]
}

/// `push rbp; mov rbp, rsp; sub rsp, frame; mov [rbp - 8], rdi`.
pub open spec fn frame_setup(frame: u32) -> Seq<u8> {
    seq![0x55u8, 0x48u8, 0x89u8, 0xE5u8] + rsp_adjust(0xEC, frame) + rbp_op(0x89, RM_RDI, slot_disp(0))
}

/// `mov rax, [rsi + off]`.
pub open spec fn load_arg(off: u32) -> Seq<u8> {
    seq![0x48u8, 0x8Bu8, 0x86u8] + le32(off)
}

/// `mov [rsp + off], rax`.
pub open spec fn store_outgoing(off: u32) -> Seq<u8> {
    seq![0x48u8, 0x89u8, 0x84u8, 0x24u8] + le32(off)
}

/// `mov rdx, rsp`.
pub open spec fn rdx_from_rsp() -> Seq<u8> {
    seq![0x48u8, 0x89u8, 0xE2u8]
}

/// The most slots a frame may have.
pub const MAX_SLOTS: u64 = 0x10_0000;

/// The displacement from rbp of slot `k` (slot 0 holds the runtime pointer):
/// `-8 (k + 1)` as a 32-bit two's-complement word.
pub open spec fn slot_disp(k: int) -> u32 {
    (0x1_0000_0000 - 8 * (k + 1)) as u32
}

pub fn emit_u8(code: &mut Vec<u8>, b: u8)
    ensures
        final(code)@ == old(code)@ + seq![b],
{
    code.push(b);
    assert(final(code)@ =~= old(code)@ + seq![b]);
}

pub fn emit_le32(code: &mut Vec<u8>, v: u32)
    ensures
        final(code)@ == old(code)@ + le32(v),
{
    code.push((v & 0xff) as u8);
    code.push(((v >> 8u32) & 0xff) as u8);
    code.push(((v >> 16u32) & 0xff) as u8);
    code.push(((v >> 24u32) & 0xff) as u8);
    assert(final(code)@ =~= old(code)@ + le32(v));
}

pub fn emit_le64(code: &mut Vec<u8>, v: u64)
    ensures
        final(code)@ == old(code)@ + le64(v),
{
    code.push((v & 0xff) as u8);
    code.push(((v >> 8u64) & 0xff) as u8);
    code.push(((v >> 16u64) & 0xff) as u8);
    code.push(((v >> 24u64) & 0xff) as u8);
    code.push(((v >> 32u64) & 0xff) as u8);
    code.push(((v >> 40u64) & 0xff) as u8);
    code.push(((v >> 48u64) & 0xff) as u8);
    code.push(((v >> 56u64) & 0xff) as u8);
    assert(final(code)@ =~= old(code)@ + le64(v));
}

pub fn emit2(code: &mut Vec<u8>, a: u8, b: u8)
    ensures
        final(code)@ == old(code)@ + seq![a, b],
{
    code.push(a);
    code.push(b);
    assert(final(code)@ =~= old(code)@ + seq![a, b]);
}

pub fn emit3(code: &mut Vec<u8>, a: u8, b: u8, c: u8)
    ensures
        final(code)@ == old(code)@ + seq![a, b, c],
{
    code.push(a);
    code.push(b);
    code.push(c);
    assert(final(code)@ =~= old(code)@ + seq![a, b, c]);
}

pub fn emit4(code: &mut Vec<u8>, a: u8, b: u8, c: u8, d: u8)
    ensures
        final(code)@ == old(code)@ + seq![a, b, c, d],
{
    code.push(a);
    code.push(b);
    code.push(c);
    code.push(d);
    assert(final(code)@ =~= old(code)@ + seq![a, b, c, d]);
}

pub fn emit_rbp_op(code: &mut Vec<u8>, opc: u8, modrm: u8, d: u32)
    ensures
        final(code)@ == old(code)@ + rbp_op(opc, modrm, d),
{
    emit3(code, 0x48, opc, modrm);
    emit_le32(code, d);
    assert(final(code)@ =~= old(code)@ + rbp_op(opc, modrm, d));
}

pub fn emit_mov_imm64(code: &mut Vec<u8>, op: u8, v: u64)
    ensures
        final(code)@ == old(code)@ + mov_imm64(op, v),
{
    emit2(code, 0x48, op);
    emit_le64(code, v);
    assert(final(code)@ =~= old(code)@ + mov_imm64(op, v));
}

pub fn emit_mov_imm32(code: &mut Vec<u8>, modrm: u8, v: u32)
    ensures
        final(code)@ == old(code)@ + mov_imm32(modrm, v),
{
    emit3(code, 0x48, 0xC7, modrm);
    emit_le32(code, v);
    assert(final(code)@ =~= old(code)@ + mov_imm32(modrm, v));
}

pub fn emit_rsp_adjust(code: &mut Vec<u8>, modrm: u8, v: u32)
    ensures
        final(code)@ == old(code)@ + rsp_adjust(modrm, v),
{
    emit3(code, 0x48, 0x81, modrm);
    emit_le32(code, v);
    assert(final(code)@ =~= old(code)@ + rsp_adjust(modrm, v));
}

pub fn emit_imul_slot(code: &mut Vec<u8>, d: u32)
    ensures
        final(code)@ == old(code)@ + imul_slot(d),
{
    emit4(code, 0x48, 0x0F, 0xAF, 0x85);
    emit_le32(code, d);
    assert(final(code)@ =~= old(code)@ + imul_slot(d));
}

pub fn emit_idiv_slot(code: &mut Vec<u8>, d: u32)
    ensures
        final(code)@ == old(code)@ + idiv_slot(d),
{
    emit2(code, 0x48, 0x99);
    emit_rbp_op(code, 0xF7, RM_RDI, d);
    assert(final(code)@ =~= old(code)@ + idiv_slot(d));
}

pub fn emit_setcc_rax(code: &mut Vec<u8>, cc: u8)
    ensures
        final(code)@ == old(code)@ + setcc_rax(cc),
{
    emit3(code, 0x0F, cc, 0xC0);
    emit4(code, 0x48, 0x0F, 0xB6, 0xC0);
    assert(final(code)@ =~= old(code)@ + setcc_rax(cc));
}

pub fn emit_jmp_rel(code: &mut Vec<u8>, rel: u32)
    ensures
        final(code)@ == old(code)@ + jmp_rel(rel),
{
    emit_u8(code, 0xE9);
    emit_le32(code, rel);
    assert(final(code)@ =~= old(code)@ + jmp_rel(rel));
}

pub fn emit_jne_rel(code: &mut Vec<u8>, rel: u32)
    ensures
        final(code)@ == old(code)@ + jne_rel(rel),
{
    emit2(code, 0x0F, 0x85);
    emit_le32(code, rel);
    assert(final(code)@ =~= old(code)@ + jne_rel(rel));
}

pub fn emit_test_slot_one(code: &mut Vec<u8>, d: u32)
    ensures
        final(code)@ == old(code)@ + test_slot_one(d),
{
    emit_rbp_op(code, 0xF7, RM_RAX, d);
    emit_le32(code, 1);
    assert(final(code)@ =~= old(code)@ + test_slot_one(d));
}

pub fn emit_leave_ret(code: &mut Vec<u8>)
    ensures
        final(code)@ == old(code)@ + leave_ret(),
{
    emit3(code, 0x48, 0x89, 0xEC);
    emit2(code, 0x5D, 0xC3);
    assert(final(code)@ =~= old(code)@ + leave_ret());
}

pub fn emit_frame_setup(code: &mut Vec<u8>, frame: u32)
    ensures
        final(code)@ == old(code)@ + frame_setup(frame),
{
    emit4(code, 0x55, 0x48, 0x89, 0xE5);
    emit_rsp_adjust(code, 0xEC, frame);
    emit_rbp_op(code, 0x89, RM_RDI, 0xFFFF_FFF8);
    assert(slot_disp(0) == 0xFFFF_FFF8u32);
    assert(final(code)@ =~= old(code)@ + frame_setup(frame));
}

pub fn emit_load_arg(code: &mut Vec<u8>, off: u32)
    ensures
        final(code)@ == old(code)@ + load_arg(off),
{
    emit3(code, 0x48, 0x8B, 0x86);
    emit_le32(code, off);
    assert(final(code)@ =~= old(code)@ + load_arg(off));
}

pub fn emit_store_outgoing(code: &mut Vec<u8>, off: u32)
    ensures
        final(code)@ == old(code)@ + store_outgoing(off),
{
    emit4(code, 0x48, 0x89, 0x84, 0x24);
    emit_le32(code, off);
    assert(final(code)@ =~= old(code)@ + store_outgoing(off));
}

/// The displacement of slot `k`.
pub fn slot_displacement(k: u64) -> (r: u32)
    requires
        k <= MAX_SLOTS,
    ensures
        r == slot_disp(k as int),
{
    (0x1_0000_0000u64 - 8 * (k + 1)) as u32
}

} // verus!
