use vstd::prelude::*;

use crate::cpu::Register;
use crate::display::spec_draw;
use crate::display::spec_draw_collision;
use crate::display::screen_wf;
use crate::display::Screen;
use crate::opcode::spec_decode;
use crate::opcode::spec_op;
use crate::opcode::Opcode;
use crate::Chip8Error;
use crate::StepOutcome;

verus! {

/// The abstract state of one machine: the plain values behind every register,
/// memory cell, timer and pixel. All contracts speak about this view.
#[verifier::ext_equal]
pub struct Chip8View {
    /// The 4096-byte address space; the first 80 bytes hold the built-in font.
    pub memory: Seq<u8>,
    /// The sixteen 8-bit registers; index 15 doubles as the flag.
    pub reg: Seq<u8>,
    /// The program counter.
    pub pc: u16,
    /// The call stack of return addresses, most recent last.
    pub stack: Seq<u16>,
    /// How deep the call stack may grow; a call that would exceed it faults.
    pub stack_limit: usize,
    /// The 16-bit index register, used as a memory pointer.
    pub i_addr: u16,
    /// The delay timer; counts down to zero, never below.
    pub delay_timer: u8,
    /// The sound timer; the host plays a tone while it is nonzero.
    pub sound_timer: u8,
    /// The 64x32 framebuffer, row-major, one bit per cell.
    pub screen: Seq<u8>,
}

impl Chip8View {
    /// Every component has its fixed size and the framebuffer holds only bits.
    pub open spec fn wf(self) -> bool {
        &&& self.memory.len() == 4096
        &&& self.reg.len() == 16
        &&& screen_wf(self.screen)
    }
}

/// The big-endian 16-bit word at address `pc`: the high byte sits at the lower
/// address.
pub open spec fn spec_word_at(m: Seq<u8>, pc: int) -> u16 {
    ((m[pc] as u16) << 8) | (m[pc + 1] as u16)
}

/// One timer tick: down by one, floored at zero.
pub open spec fn dec_timer(t: u8) -> u8 {
    if t == 0 {
        0
    } else {
        (t - 1) as u8
    }
}

/// Whether key `k` is held in the key bitmask `keys`.
pub open spec fn key_down(keys: u16, k: int) -> bool {
    (keys >> (k as u16)) & 1 == 1
}

/// The lowest held key at position `k` or above, or 16 when none is held there.
pub open spec fn lowest_key_from(keys: u16, k: int) -> int
    decreases 16 - k,
{
    if k < 0 || k >= 16 {
        16
    } else if key_down(keys, k) {
        k
    } else {
        lowest_key_from(keys, k + 1)
    }
}

/// The lowest held key, or 16 when no key is held.
pub open spec fn lowest_key(keys: u16) -> int {
    lowest_key_from(keys, 0)
}

/// The view with register `i` set to `val`.
pub open spec fn upd_reg(v: Chip8View, i: int, val: u8) -> Chip8View {
    Chip8View { reg: v.reg.update(i, val), ..v }
}

/// The view with the program counter moved past one more instruction, wrapping
/// the 16-bit counter.
pub open spec fn skip_next(v: Chip8View) -> Chip8View {
    Chip8View { pc: ((v.pc + 2) % 0x10000) as u16, ..v }
}

/// Memory with `data` written over the window starting at `start`.
pub open spec fn overwrite(m: Seq<u8>, start: int, data: Seq<u8>) -> Seq<u8> {
    Seq::new(m.len(), |j: int| if start <= j < start + data.len() { data[j - start] } else { m[j] })
}

/// The effect of one decoded instruction on a machine whose program counter
/// has already moved past the fetched word. `rnd` is the byte the random
/// generator handed out, `keys` the bitmask of currently held keys. A fault
/// leaves the machine exactly as it was; waiting for a key also changes
/// nothing, so the same instruction runs again on the next step.
pub open spec fn spec_execute(pre: Chip8View, op: Opcode, rnd: u8, keys: u16) -> (Chip8View, Result<
    StepOutcome,
    Chip8Error,
>) {
    let done = Ok::<StepOutcome, Chip8Error>(StepOutcome::Completed);
    match op {
        Opcode::ClearDisplay => (
            Chip8View { screen: Seq::new(2048, |i: int| 0u8), ..pre },
            done,
        ),
        Opcode::Return => {
            if pre.stack.len() == 0 {
                (pre, Err(Chip8Error::StackUnderflow))
            } else {
                (Chip8View { pc: pre.stack.last(), stack: pre.stack.drop_last(), ..pre }, done)
            }
        },
        Opcode::Noop => (pre, done),
        Opcode::Jump(nnn) => (Chip8View { pc: nnn as u16, ..pre }, done),
        Opcode::CallSubroutine(nnn) => {
            if pre.stack.len() >= pre.stack_limit {
                (pre, Err(Chip8Error::StackOverflow))
            } else {
                (Chip8View { stack: pre.stack.push(pre.pc), pc: nnn as u16, ..pre }, done)
            }
        },
        Opcode::SkipIfConstantEqual(x, kk) => {
            if pre.reg[x.spec_index()] == kk {
                (skip_next(pre), done)
            } else {
                (pre, done)
            }
        },
        Opcode::SkipIfConstantNotEqual(x, kk) => {
            if pre.reg[x.spec_index()] != kk {
                (skip_next(pre), done)
            } else {
                (pre, done)
            }
        },
        Opcode::SkipIfRegistersEqual(x, y) => {
            if pre.reg[x.spec_index()] == pre.reg[y.spec_index()] {
                (skip_next(pre), done)
            } else {
                (pre, done)
            }
        },
        Opcode::LoadConstant(x, kk) => (upd_reg(pre, x.spec_index(), kk), done),
        Opcode::AddConstant(x, kk) => {
            let vx = pre.reg[x.spec_index()];
            (upd_reg(pre, x.spec_index(), ((vx + kk) % 256) as u8), done)
        },
        Opcode::LoadRegister(x, y) => (
            upd_reg(pre, x.spec_index(), pre.reg[y.spec_index()]),
            done,
        ),
        Opcode::Or(x, y) => {
            let vx = pre.reg[x.spec_index()];
            let vy = pre.reg[y.spec_index()];
            (upd_reg(pre, x.spec_index(), vx | vy), done)
        },
        Opcode::And(x, y) => {
            let vx = pre.reg[x.spec_index()];
            let vy = pre.reg[y.spec_index()];
            (upd_reg(pre, x.spec_index(), vx & vy), done)
        },
        Opcode::Xor(x, y) => {
            let vx = pre.reg[x.spec_index()];
            let vy = pre.reg[y.spec_index()];
            (upd_reg(pre, x.spec_index(), vx ^ vy), done)
        },
        Opcode::AddRegister(x, y) => {
            let vx = pre.reg[x.spec_index()];
            let vy = pre.reg[y.spec_index()];
            let flag: u8 = if vx + vy > 255 {
                1
            } else {
                0
            };
            (
                Chip8View {
                    reg: pre.reg.update(x.spec_index(), ((vx + vy) % 256) as u8).update(15, flag),
                    ..pre
                },
                done,
            )
        },
        Opcode::SubtractRightRegister(x, y) => {
            let vx = pre.reg[x.spec_index()];
            let vy = pre.reg[y.spec_index()];
            let val: u8 = if vx >= vy {
                (vx - vy) as u8
            } else {
                (vx - vy + 256) as u8
            };
            let flag: u8 = if vx > vy {
                1
            } else {
                0
            };
            (Chip8View { reg: pre.reg.update(x.spec_index(), val).update(15, flag), ..pre }, done)
        },
        Opcode::ShiftRight(x) => {
            let vx = pre.reg[x.spec_index()];
            (
                Chip8View {
                    reg: pre.reg.update(x.spec_index(), (vx / 2) as u8).update(
                        15,
                        (vx % 2) as u8,
                    ),
                    ..pre
                },
                done,
            )
        },
        Opcode::SubtractLeftRegister(x, y) => {
            let vx = pre.reg[x.spec_index()];
            let vy = pre.reg[y.spec_index()];
            let val: u8 = if vy >= vx {
                (vy - vx) as u8
            } else {
                (vy - vx + 256) as u8
            };
            let flag: u8 = if vy > vx {
                1
            } else {
                0
            };
            (Chip8View { reg: pre.reg.update(x.spec_index(), val).update(15, flag), ..pre }, done)
        },
        Opcode::ShiftLeft(x) => {
            let vx = pre.reg[x.spec_index()];
            (
                Chip8View {
                    reg: pre.reg.update(x.spec_index(), ((vx * 2) % 256) as u8).update(
                        15,
                        (vx / 128) as u8,
                    ),
                    ..pre
                },
                done,
            )
        },
        Opcode::SkipIfRegistersNotEqual(x, y) => {
            if pre.reg[x.spec_index()] != pre.reg[y.spec_index()] {
                (skip_next(pre), done)
            } else {
                (pre, done)
            }
        },
        Opcode::LoadAddress(nnn) => (Chip8View { i_addr: nnn as u16, ..pre }, done),
        Opcode::JumpPlus(nnn) => (Chip8View { pc: (pre.reg[0] + nnn) as u16, ..pre }, done),
        Opcode::Random(x, kk) => (upd_reg(pre, x.spec_index(), rnd & kk), done),
        Opcode::DisplaySprite(x, y, n) => {
            if pre.i_addr + n > 4096 {
                (pre, Err(Chip8Error::AddressOutOfRange))
            } else {
                let rows = pre.memory.subrange(pre.i_addr as int, pre.i_addr + n);
                let ox = pre.reg[x.spec_index()] as int;
                let oy = pre.reg[y.spec_index()] as int;
                let flag: u8 = if spec_draw_collision(pre.screen, rows, ox, oy) {
                    1
                } else {
                    0
                };
                (
                    Chip8View {
                        screen: spec_draw(pre.screen, rows, ox, oy),
                        reg: pre.reg.update(15, flag),
                        ..pre
                    },
                    done,
                )
            }
        },
        Opcode::SkipIfPressed(x) => {
            if key_down(keys, (pre.reg[x.spec_index()] % 16) as int) {
                (skip_next(pre), done)
            } else {
                (pre, done)
            }
        },
        Opcode::SkipIfNotPressed(x) => {
            if !key_down(keys, (pre.reg[x.spec_index()] % 16) as int) {
                (skip_next(pre), done)
            } else {
                (pre, done)
            }
        },
        Opcode::LoadDelayTimer(x) => (upd_reg(pre, x.spec_index(), pre.delay_timer), done),
        Opcode::WaitForPress(x) => {
            if keys == 0 {
                (pre, Ok(StepOutcome::WaitingForKey))
            } else {
                (upd_reg(pre, x.spec_index(), lowest_key(keys) as u8), done)
            }
        },
        Opcode::SetDelayTimer(x) => (
            Chip8View { delay_timer: pre.reg[x.spec_index()], ..pre },
            done,
        ),
        Opcode::SetSoundTimer(x) => (
            Chip8View { sound_timer: pre.reg[x.spec_index()], ..pre },
            done,
        ),
        Opcode::AddAddress(x) => {
            let vx = pre.reg[x.spec_index()];
            (Chip8View { i_addr: ((pre.i_addr + vx) % 0x10000) as u16, ..pre }, done)
        },
        Opcode::LoadAddressOfSprite(x) => {
            let vx = pre.reg[x.spec_index()];
            (Chip8View { i_addr: (5 * (vx % 16)) as u16, ..pre }, done)
        },
        Opcode::LoadDigits(x) => {
            if pre.i_addr + 3 > 4096 {
                (pre, Err(Chip8Error::AddressOutOfRange))
            } else {
                let vx = pre.reg[x.spec_index()];
                let ia = pre.i_addr as int;
                (
                    Chip8View {
                        memory: pre.memory.update(ia, (vx / 100) as u8).update(
                            ia + 1,
                            ((vx / 10) % 10) as u8,
                        ).update(ia + 2, (vx % 10) as u8),
                        ..pre
                    },
                    done,
                )
            }
        },
        Opcode::StoreRegisters(x) => {
            if pre.i_addr + x.spec_index() + 1 > 4096 {
                (pre, Err(Chip8Error::AddressOutOfRange))
            } else {
                let count = x.spec_index() + 1;
                (
                    Chip8View {
                        memory: overwrite(
                            pre.memory,
                            pre.i_addr as int,
                            pre.reg.subrange(0, count),
                        ),
                        ..pre
                    },
                    done,
                )
            }
        },
        Opcode::LoadRegisters(x) => {
            if pre.i_addr + x.spec_index() + 1 > 4096 {
                (pre, Err(Chip8Error::AddressOutOfRange))
            } else {
                let count = x.spec_index() + 1;
                let ia = pre.i_addr as int;
                (
                    Chip8View {
                        reg: Seq::new(
                            16,
                            |j: int|
                                if j < count {
                                    pre.memory[ia + j]
                                } else {
                                    pre.reg[j]
                                },
                        ),
                        ..pre
                    },
                    done,
                )
            }
        },
    }
}

/// One whole fetch-decode-execute step from state `pre`. A fault of any kind
/// (program counter past the end of memory, an illegal word, an instruction
/// fault) leaves the machine exactly as it was; waiting for a key does too.
pub open spec fn spec_step(pre: Chip8View, rnd: u8, keys: u16) -> (Chip8View, Result<
    StepOutcome,
    Chip8Error,
>) {
    if pre.pc + 1 >= 4096 {
        (pre, Err(Chip8Error::AddressOutOfRange))
    } else {
        let w = spec_word_at(pre.memory, pre.pc as int);
        match spec_decode(w) {
            None => (pre, Err(Chip8Error::InvalidInstruction(w))),
            Some(op) => {
                let stepped = spec_execute(Chip8View { pc: (pre.pc + 2) as u16, ..pre }, op, rnd, keys);
                if stepped.1 == Ok::<StepOutcome, Chip8Error>(StepOutcome::Completed) {
                    stepped
                } else {
                    (pre, stepped.1)
                }
            },
        }
    }
}

/// Whether `(post, r)` is the step that `pre` takes when the random generator
/// hands out `rnd` while the keys in `keys` are held.
pub open spec fn step_matches(
    pre: Chip8View,
    post: Chip8View,
    r: Result<StepOutcome, Chip8Error>,
    rnd: u8,
    keys: u16,
) -> bool {
    &&& post == spec_step(pre, rnd, keys).0
    &&& r == spec_step(pre, rnd, keys).1
}

/// The built-in font: sixteen hexadecimal glyphs, five bytes each, that live
/// at the bottom of memory.
pub open spec fn spec_font() -> Seq<u8> {
    seq![
        0xF0u8, 0x90u8, 0x90u8, 0x90u8, 0xF0u8,
        0x20u8, 0x60u8, 0x20u8, 0x20u8, 0x70u8,
        0xF0u8, 0x10u8, 0xF0u8, 0x80u8, 0xF0u8,
        0xF0u8, 0x10u8, 0xF0u8, 0x10u8, 0xF0u8,
        0x90u8, 0x90u8, 0xF0u8, 0x10u8, 0x10u8,
        0xF0u8, 0x80u8, 0xF0u8, 0x10u8, 0xF0u8,
        0xF0u8, 0x80u8, 0xF0u8, 0x90u8, 0xF0u8,
        0xF0u8, 0x10u8, 0x20u8, 0x40u8, 0x40u8,
        0xF0u8, 0x90u8, 0xF0u8, 0x90u8, 0xF0u8,
        0xF0u8, 0x90u8, 0xF0u8, 0x10u8, 0xF0u8,
        0xF0u8, 0x90u8, 0xF0u8, 0x90u8, 0x90u8,
        0xE0u8, 0x90u8, 0xE0u8, 0x90u8, 0xE0u8,
        0xF0u8, 0x80u8, 0x80u8, 0x80u8, 0xF0u8,
        0xE0u8, 0x90u8, 0x90u8, 0x90u8, 0xE0u8,
        0xF0u8, 0x80u8, 0xF0u8, 0x80u8, 0xF0u8,
        0xF0u8, 0x80u8, 0xF0u8, 0x80u8, 0x80u8,
    ]
}

/// A freshly constructed machine: font in low memory, everything else zeroed,
/// the program counter at the conventional load address 0x200.
pub open spec fn spec_new() -> Chip8View {
    Chip8View {
        memory: Seq::new(4096, |j: int| if j < 80 { spec_font()[j] } else { 0u8 }),
        reg: Seq::new(16, |j: int| 0u8),
        pc: 0x200,
        stack: Seq::empty(),
        stack_limit: usize::MAX,
        i_addr: 0,
        delay_timer: 0,
        sound_timer: 0,
        screen: Seq::new(2048, |j: int| 0u8),
    }
}

/// Relies on rand::random: draws one byte from the thread-local generator.
/// Nothing is assumed about the value; every caller must cope with every byte.
#[verifier::external_body]
fn random_byte() -> u8 {
    rand::random::<u8>()
}

/// Write `data` into `memory` starting at `start`, leaving the rest alone.
fn copy_into_memory(memory: &mut Vec<u8>, data: &[u8], start: usize)
    requires
        old(memory)@.len() == 4096,
        start + data@.len() <= 4096,
    ensures
        final(memory)@ == overwrite(old(memory)@, start as int, data@),
{
    let ghost m0 = memory@;
    let len = data.len();
    let mut k: usize = 0;
    while k < len
        invariant
            memory@.len() == 4096,
            m0.len() == 4096,
            len == data@.len(),
            start + len <= 4096,
            k <= len,
            forall|j: int|
                0 <= j < 4096 ==> memory@[j] == (if start <= j < start + k {
                    data@[j - start]
                } else {
                    m0[j]
                }),
        decreases len - k,
    {
        memory.set(start + k, data[k]);
        k += 1;
    }
    proof {
        assert(memory@ =~= overwrite(m0, start as int, data@));
    }
}

/// The sixteen built-in glyphs as one 80-byte block.
fn font() -> (v: Vec<u8>)
    ensures
        v@ == spec_font(),
{
    let mut v: Vec<u8> = Vec::new();
    v.push(0xF0); v.push(0x90); v.push(0x90); v.push(0x90); v.push(0xF0);
    v.push(0x20); v.push(0x60); v.push(0x20); v.push(0x20); v.push(0x70);
    v.push(0xF0); v.push(0x10); v.push(0xF0); v.push(0x80); v.push(0xF0);
    v.push(0xF0); v.push(0x10); v.push(0xF0); v.push(0x10); v.push(0xF0);
    v.push(0x90); v.push(0x90); v.push(0xF0); v.push(0x10); v.push(0x10);
    v.push(0xF0); v.push(0x80); v.push(0xF0); v.push(0x10); v.push(0xF0);
    v.push(0xF0); v.push(0x80); v.push(0xF0); v.push(0x90); v.push(0xF0);
    v.push(0xF0); v.push(0x10); v.push(0x20); v.push(0x40); v.push(0x40);
    v.push(0xF0); v.push(0x90); v.push(0xF0); v.push(0x90); v.push(0xF0);
    v.push(0xF0); v.push(0x90); v.push(0xF0); v.push(0x10); v.push(0xF0);
    v.push(0xF0); v.push(0x90); v.push(0xF0); v.push(0x90); v.push(0x90);
    v.push(0xE0); v.push(0x90); v.push(0xE0); v.push(0x90); v.push(0xE0);
    v.push(0xF0); v.push(0x80); v.push(0x80); v.push(0x80); v.push(0xF0);
    v.push(0xE0); v.push(0x90); v.push(0x90); v.push(0x90); v.push(0xE0);
    v.push(0xF0); v.push(0x80); v.push(0xF0); v.push(0x80); v.push(0xF0);
    v.push(0xF0); v.push(0x80); v.push(0xF0); v.push(0x80); v.push(0x80);
    proof {
        assert(v@ =~= spec_font());
    }
    v
}

/// Copy the first `count` registers into memory starting at `ia`.
fn copy_regs_to_memory(memory: &mut Vec<u8>, reg: &Vec<u8>, ia: usize, count: usize)
    requires
        old(memory)@.len() == 4096,
        reg@.len() == 16,
        count <= 16,
        ia + count <= 4096,
    ensures
        final(memory)@ == overwrite(old(memory)@, ia as int, reg@.subrange(0, count as int)),
{
    let ghost m0 = memory@;
    let mut k: usize = 0;
    while k < count
        invariant
            memory@.len() == 4096,
            m0.len() == 4096,
            reg@.len() == 16,
            count <= 16,
            ia + count <= 4096,
            k <= count,
            forall|j: int|
                0 <= j < 4096 ==> memory@[j] == (if ia <= j < ia + k {
                    reg@[j - ia]
                } else {
                    m0[j]
                }),
        decreases count - k,
    {
        memory.set(ia + k, reg[k]);
        k += 1;
    }
    proof {
        assert(memory@ =~= overwrite(m0, ia as int, reg@.subrange(0, count as int)));
    }
}

/// Load the first `count` registers from memory starting at `ia`, leaving the
/// higher registers alone.
fn copy_memory_to_regs(reg: &mut Vec<u8>, memory: &Vec<u8>, ia: usize, count: usize)
    requires
        old(reg)@.len() == 16,
        memory@.len() == 4096,
        count <= 16,
        ia + count <= 4096,
    ensures
        final(reg)@ == Seq::new(
            16,
            |j: int|
                if j < count {
                    memory@[ia + j]
                } else {
                    old(reg)@[j]
                },
        ),
{
    let ghost r0 = reg@;
    let mut k: usize = 0;
    while k < count
        invariant
            reg@.len() == 16,
            r0.len() == 16,
            memory@.len() == 4096,
            count <= 16,
            ia + count <= 4096,
            k <= count,
            forall|j: int|
                0 <= j < 16 ==> reg@[j] == (if 0 <= j < k {
                    memory@[ia + j]
                } else {
                    r0[j]
                }),
        decreases count - k,
    {
        reg.set(k, memory[ia + k]);
        k += 1;
    }
    proof {
        assert(reg@ =~= Seq::new(
            16,
            |j: int|
                if j < count {
                    memory@[ia + j]
                } else {
                    r0[j]
                },
        ));
    }
}

/// Read the `n` sprite rows that start at memory address `ia`.
fn read_rows(memory: &Vec<u8>, ia: usize, n: usize) -> (rows: Vec<u8>)
    requires
        memory@.len() == 4096,
        ia + n <= 4096,
    ensures
        rows@ == memory@.subrange(ia as int, ia as int + n as int),
{
    let mut rows: Vec<u8> = Vec::new();
    let mut k: usize = 0;
    while k < n
        invariant
            memory@.len() == 4096,
            ia + n <= 4096,
            k <= n,
            rows@.len() == k,
            forall|j: int| 0 <= j < k ==> rows@[j] == memory@[ia + j],
        decreases n - k,
    {
        rows.push(memory[ia + k]);
        k += 1;
    }
    proof {
        assert(rows@ =~= memory@.subrange(ia as int, ia as int + n as int));
    }
    rows
}

/// The lowest held key in the bitmask, or 16 when no key is held.
fn lowest_held_key(keys: u16) -> (k: u8)
    ensures
        k as int == lowest_key(keys),
{
    let mut k: u8 = 0;
    while k < 16
        invariant
            k <= 16,
            lowest_key(keys) == lowest_key_from(keys, k as int),
        decreases 16 - k,
    {
        if (keys >> (k as u16)) & 1 == 1 {
            proof {
                assert(key_down(keys, k as int));
            }
            return k;
        }
        k += 1;
    }
    16
}

/// The interpreter: memory, registers, program counter, call stack, index
/// register, the two timers, and the framebuffer.
pub struct Chip8 {
    memory: Vec<u8>,
    reg: Vec<u8>,
    pc: u16,
    stack: Vec<u16>,
    stack_limit: usize,
    i_addr: u16,
    delay_timer: u8,
    sound_timer: u8,
    screen: Screen,
}

impl View for Chip8 {
    type V = Chip8View;

    closed spec fn view(&self) -> Chip8View {
        Chip8View {
            memory: self.memory@,
            reg: self.reg@,
            pc: self.pc,
            stack: self.stack@,
            stack_limit: self.stack_limit,
            i_addr: self.i_addr,
            delay_timer: self.delay_timer,
            sound_timer: self.sound_timer,
            screen: self.screen@,
        }
    }
}

impl Chip8 {
    /// A fresh machine: zeroed memory with the font at the bottom, cleared
    /// registers and screen, the program counter at 0x200.
    pub fn new() -> (c: Chip8)
        ensures
            c@ == spec_new(),
            c@.wf(),
    {
        let mut memory: Vec<u8> = Vec::new();
        let mut i: usize = 0;
        while i < 4096
            invariant
                i <= 4096,
                memory@.len() == i,
                forall|j: int| 0 <= j < i ==> memory@[j] == 0,
            decreases 4096 - i,
        {
            memory.push(0);
            i += 1;
        }
        let glyphs = font();
        copy_into_memory(&mut memory, glyphs.as_slice(), 0);

        let mut reg: Vec<u8> = Vec::new();
        let mut k: usize = 0;
        while k < 16
            invariant
                k <= 16,
                reg@.len() == k,
                forall|j: int| 0 <= j < k ==> reg@[j] == 0,
            decreases 16 - k,
        {
            reg.push(0);
            k += 1;
        }

        let c = Chip8 {
            memory,
            reg,
            pc: 0x200,
            stack: Vec::new(),
            stack_limit: usize::MAX,
            i_addr: 0,
            delay_timer: 0,
            sound_timer: 0,
            screen: Screen::new(),
        };
        proof {
            assert(c@.memory =~= spec_new().memory);
            assert(c@.reg =~= spec_new().reg);
            assert(c@.screen =~= spec_new().screen);
            assert(c@.stack =~= spec_new().stack);
            assert(c@ =~= spec_new());
        }
        c
    }

    /// Copy a program image into memory at the conventional load address
    /// 0x200. An image that does not fit below the end of memory is rejected
    /// before anything is written.
    pub fn load_program(&mut self, data: &[u8]) -> (r: Result<(), Chip8Error>)
        requires
            old(self)@.wf(),
        ensures
            final(self)@.wf(),
            data@.len() + 0x200 <= 4096 ==> r == Ok::<(), Chip8Error>(()) && final(self)@
                == (Chip8View {
                memory: overwrite(old(self)@.memory, 0x200, data@),
                ..old(self)@
            }),
            data@.len() + 0x200 > 4096 ==> r == Err::<(), Chip8Error>(Chip8Error::ProgramTooLarge)
                && final(self)@ == old(self)@,
    {
        if data.len() > 4096 - 0x200 {
            return Err(Chip8Error::ProgramTooLarge);
        }
        copy_into_memory(&mut self.memory, data, 0x200);
        Ok(())
    }

    /// Count both timers down by one, floored at zero. Intended to be driven
    /// by the host at a fixed cadence (conventionally 60 Hz), independent of
    /// how often instructions are stepped.
    pub fn tick_timers(&mut self)
        requires
            old(self)@.wf(),
        ensures
            final(self)@.wf(),
            final(self)@ == (Chip8View {
                delay_timer: dec_timer(old(self)@.delay_timer),
                sound_timer: dec_timer(old(self)@.sound_timer),
                ..old(self)@
            }),
    {
        if self.delay_timer > 0 {
            self.delay_timer = self.delay_timer - 1;
        }
        if self.sound_timer > 0 {
            self.sound_timer = self.sound_timer - 1;
        }
    }

    /// The pixel at column `x` of row `y`: 1 when lit, 0 when dark.
    pub fn get_pixel(&self, x: usize, y: usize) -> (p: u8)
        requires
            self@.wf(),
            x < 64,
            y < 32,
        ensures
            p == self@.screen[y * 64 + x],
            p <= 1,
    {
        self.screen.pixel(x, y)
    }

    /// The value of register `x`.
    pub fn get_register(&self, x: u8) -> (v: u8)
        requires
            self@.wf(),
            x < 16,
        ensures
            v == self@.reg[x as int],
    {
        self.reg[x as usize]
    }

    /// The program counter.
    pub fn get_pc(&self) -> (pc: u16)
        ensures
            pc == self@.pc,
    {
        self.pc
    }

    /// The index register.
    pub fn get_i_addr(&self) -> (i: u16)
        ensures
            i == self@.i_addr,
    {
        self.i_addr
    }

    /// The delay timer.
    pub fn get_delay_timer(&self) -> (t: u8)
        ensures
            t == self@.delay_timer,
    {
        self.delay_timer
    }

    /// The byte at memory address `addr`.
    pub fn get_memory(&self, addr: usize) -> (b: u8)
        requires
            self@.wf(),
            addr < 4096,
        ensures
            b == self@.memory[addr as int],
    {
        self.memory[addr]
    }

    /// True while the sound timer is nonzero; the host turns this into a tone.
    pub fn sound_active(&self) -> (b: bool)
        ensures
            b == (self@.sound_timer != 0),
    {
        self.sound_timer != 0
    }

    /// Bound how deep the call stack may grow. A fresh machine has no
    /// practical bound; a host can lower it to catch runaway recursion, which
    /// then faults instead of growing without limit.
    pub fn set_stack_limit(&mut self, limit: usize)
        ensures
            final(self)@ == (Chip8View { stack_limit: limit, ..old(self)@ }),
    {
        self.stack_limit = limit;
    }

    /// Advance the program counter past one more instruction, wrapping the
    /// 16-bit counter.
    fn skip(&mut self)
        ensures
            final(self)@ == skip_next(old(self)@),
    {
        self.pc = ((self.pc as u32 + 2) % 0x10000) as u16;
    }

    /// Apply one decoded instruction. The program counter must already have
    /// been advanced past the fetched word, so a skip only adds one more
    /// instruction width; `rnd` is the byte the random generator handed out
    /// and `keys` the bitmask of held keys. A fault leaves the machine exactly
    /// as it was.
    pub fn execute_opcode(&mut self, op: Opcode, rnd: u8, keys: u16) -> (r: Result<
        StepOutcome,
        Chip8Error,
    >)
        requires
            old(self)@.wf(),
            op.wf(),
        ensures
            final(self)@.wf(),
            final(self)@ == spec_execute(old(self)@, op, rnd, keys).0,
            r == spec_execute(old(self)@, op, rnd, keys).1,
    {
        match op {
            Opcode::Return | Opcode::Noop | Opcode::Jump(..) | Opcode::CallSubroutine(..) |
            Opcode::SkipIfConstantEqual(..) | Opcode::SkipIfConstantNotEqual(..) |
            Opcode::SkipIfRegistersEqual(..) | Opcode::SkipIfRegistersNotEqual(..) |
            Opcode::JumpPlus(..) => self.exec_flow(op, rnd, keys),
            Opcode::LoadConstant(..) | Opcode::AddConstant(..) | Opcode::LoadRegister(..) |
            Opcode::Or(..) | Opcode::And(..) | Opcode::Xor(..) | Opcode::AddRegister(..) |
            Opcode::SubtractRightRegister(..) | Opcode::ShiftRight(..) |
            Opcode::SubtractLeftRegister(..) | Opcode::ShiftLeft(..) | Opcode::Random(..) => self.exec_alu(op, rnd, keys),
            Opcode::ClearDisplay | Opcode::DisplaySprite(..) => self.exec_display(op, rnd, keys),
            Opcode::LoadAddress(..) | Opcode::AddAddress(..) |
            Opcode::LoadAddressOfSprite(..) | Opcode::SkipIfPressed(..) |
            Opcode::SkipIfNotPressed(..) | Opcode::LoadDelayTimer(..) |
            Opcode::WaitForPress(..) | Opcode::SetDelayTimer(..) | Opcode::SetSoundTimer(..) |
            Opcode::LoadDigits(..) | Opcode::StoreRegisters(..) | Opcode::LoadRegisters(..) => self.exec_peripheral(op, rnd, keys),
        }
    }

    /// Control flow: return, jumps, subroutine calls, and the conditional skips.
    fn exec_flow(&mut self, op: Opcode, rnd: u8, keys: u16) -> (r: Result<
        StepOutcome,
        Chip8Error,
    >)
        requires
            old(self)@.wf(),
            op.wf(),
            op is Return || op is Noop || op is Jump || op is CallSubroutine ||
                op is SkipIfConstantEqual || op is SkipIfConstantNotEqual ||
                op is SkipIfRegistersEqual || op is SkipIfRegistersNotEqual || op is JumpPlus,
        ensures
            final(self)@.wf(),
            final(self)@ == spec_execute(old(self)@, op, rnd, keys).0,
            r == spec_execute(old(self)@, op, rnd, keys).1,
    {
        match op {
            Opcode::Return => {
                match self.stack.pop() {
                    Some(addr) => {
                        self.pc = addr;
                        proof {
                            assert(self@.stack =~= old(self)@.stack.drop_last());
                            assert(self@ =~= spec_execute(old(self)@, op, rnd, keys).0);
                        }
                        Ok(StepOutcome::Completed)
                    },
                    None => Err(Chip8Error::StackUnderflow),
                }
            },
            Opcode::Noop => Ok(StepOutcome::Completed),
            Opcode::Jump(nnn) => {
                self.pc = nnn as u16;
                Ok(StepOutcome::Completed)
            },
            Opcode::CallSubroutine(nnn) => {
                if self.stack.len() >= self.stack_limit {
                    return Err(Chip8Error::StackOverflow);
                }
                self.stack.push(self.pc);
                self.pc = nnn as u16;
                Ok(StepOutcome::Completed)
            },
            Opcode::SkipIfConstantEqual(x, kk) => {
                let xi = x.index() as usize;
                if self.reg[xi] == kk {
                    self.skip();
                }
                Ok(StepOutcome::Completed)
            },
            Opcode::SkipIfConstantNotEqual(x, kk) => {
                let xi = x.index() as usize;
                if self.reg[xi] != kk {
                    self.skip();
                }
                Ok(StepOutcome::Completed)
            },
            Opcode::SkipIfRegistersEqual(x, y) => {
                let xi = x.index() as usize;
                let yi = y.index() as usize;
                if self.reg[xi] == self.reg[yi] {
                    self.skip();
                }
                Ok(StepOutcome::Completed)
            },
            Opcode::SkipIfRegistersNotEqual(x, y) => {
                let xi = x.index() as usize;
                let yi = y.index() as usize;
                if self.reg[xi] != self.reg[yi] {
                    self.skip();
                }
                Ok(StepOutcome::Completed)
            },
            Opcode::JumpPlus(nnn) => {
                let target = self.reg[0] as usize + nnn;
                self.pc = target as u16;
                Ok(StepOutcome::Completed)
            },
            _ => {
                proof {
                    assert(false);
                }
                Err(Chip8Error::AddressOutOfRange)
            },
        }
    }

    /// Register arithmetic and logic, including the random-byte instruction.
    fn exec_alu(&mut self, op: Opcode, rnd: u8, keys: u16) -> (r: Result<
        StepOutcome,
        Chip8Error,
    >)
        requires
            old(self)@.wf(),
            op.wf(),
            op is LoadConstant || op is AddConstant || op is LoadRegister || op is Or ||
                op is And || op is Xor || op is AddRegister || op is SubtractRightRegister ||
                op is ShiftRight || op is SubtractLeftRegister || op is ShiftLeft ||
                op is Random,
        ensures
            final(self)@.wf(),
            final(self)@ == spec_execute(old(self)@, op, rnd, keys).0,
            r == spec_execute(old(self)@, op, rnd, keys).1,
    {
        match op {
            Opcode::LoadConstant(x, kk) => {
                let xi = x.index() as usize;
                self.reg.set(xi, kk);
                Ok(StepOutcome::Completed)
            },
            Opcode::AddConstant(x, kk) => {
                let xi = x.index() as usize;
                let sum = self.reg[xi] as u16 + kk as u16;
                self.reg.set(xi, (sum % 256) as u8);
                Ok(StepOutcome::Completed)
            },
            Opcode::LoadRegister(x, y) => {
                let xi = x.index() as usize;
                let yi = y.index() as usize;
                let vy = self.reg[yi];
                self.reg.set(xi, vy);
                Ok(StepOutcome::Completed)
            },
            Opcode::Or(x, y) => {
                let xi = x.index() as usize;
                let yi = y.index() as usize;
                let val = self.reg[xi] | self.reg[yi];
                self.reg.set(xi, val);
                Ok(StepOutcome::Completed)
            },
            Opcode::And(x, y) => {
                let xi = x.index() as usize;
                let yi = y.index() as usize;
                let val = self.reg[xi] & self.reg[yi];
                self.reg.set(xi, val);
                Ok(StepOutcome::Completed)
            },
            Opcode::Xor(x, y) => {
                let xi = x.index() as usize;
                let yi = y.index() as usize;
                let val = self.reg[xi] ^ self.reg[yi];
                self.reg.set(xi, val);
                Ok(StepOutcome::Completed)
            },
            Opcode::AddRegister(x, y) => {
                let xi = x.index() as usize;
                let yi = y.index() as usize;
                let sum = self.reg[xi] as u16 + self.reg[yi] as u16;
                let flag: u8 = if sum > 255 {
                    1
                } else {
                    0
                };
                self.reg.set(xi, (sum % 256) as u8);
                self.reg.set(15, flag);
                Ok(StepOutcome::Completed)
            },
            Opcode::SubtractRightRegister(x, y) => {
                let xi = x.index() as usize;
                let yi = y.index() as usize;
                let vx = self.reg[xi];
                let vy = self.reg[yi];
                let val: u8 = if vx >= vy {
                    vx - vy
                } else {
                    ((vx as u16 + 256) - vy as u16) as u8
                };
                let flag: u8 = if vx > vy {
                    1
                } else {
                    0
                };
                self.reg.set(xi, val);
                self.reg.set(15, flag);
                Ok(StepOutcome::Completed)
            },
            Opcode::ShiftRight(x) => {
                let xi = x.index() as usize;
                let vx = self.reg[xi];
                self.reg.set(xi, vx / 2);
                self.reg.set(15, vx % 2);
                Ok(StepOutcome::Completed)
            },
            Opcode::SubtractLeftRegister(x, y) => {
                let xi = x.index() as usize;
                let yi = y.index() as usize;
                let vx = self.reg[xi];
                let vy = self.reg[yi];
                let val: u8 = if vy >= vx {
                    vy - vx
                } else {
                    ((vy as u16 + 256) - vx as u16) as u8
                };
                let flag: u8 = if vy > vx {
                    1
                } else {
                    0
                };
                self.reg.set(xi, val);
                self.reg.set(15, flag);
                Ok(StepOutcome::Completed)
            },
            Opcode::ShiftLeft(x) => {
                let xi = x.index() as usize;
                let vx = self.reg[xi];
                let doubled = vx as u16 * 2;
                self.reg.set(xi, (doubled % 256) as u8);
                self.reg.set(15, vx / 128);
                Ok(StepOutcome::Completed)
            },
            Opcode::Random(x, kk) => {
                let xi = x.index() as usize;
                self.reg.set(xi, rnd & kk);
                Ok(StepOutcome::Completed)
            },
            _ => {
                proof {
                    assert(false);
                }
                Err(Chip8Error::AddressOutOfRange)
            },
        }
    }

    /// The framebuffer instructions: clear and the sprite blit.
    fn exec_display(&mut self, op: Opcode, rnd: u8, keys: u16) -> (r: Result<
        StepOutcome,
        Chip8Error,
    >)
        requires
            old(self)@.wf(),
            op.wf(),
            op is ClearDisplay || op is DisplaySprite,
        ensures
            final(self)@.wf(),
            final(self)@ == spec_execute(old(self)@, op, rnd, keys).0,
            r == spec_execute(old(self)@, op, rnd, keys).1,
    {
        match op {
            Opcode::ClearDisplay => {
                self.screen.clear();
                proof {
                    assert(self@.screen =~= Seq::new(2048, |i: int| 0u8));
                    assert(self@ =~= spec_execute(old(self)@, op, rnd, keys).0);
                }
                Ok(StepOutcome::Completed)
            },
            Opcode::DisplaySprite(x, y, n) => {
                let ia = self.i_addr as usize;
                if ia + n as usize > 4096 {
                    return Err(Chip8Error::AddressOutOfRange);
                }
                let xi = x.index() as usize;
                let yi = y.index() as usize;
                let rows = read_rows(&self.memory, ia, n as usize);
                let vx = self.reg[xi];
                let vy = self.reg[yi];
                let collision = self.screen.draw(&rows, vx, vy);
                let flag: u8 = if collision {
                    1
                } else {
                    0
                };
                self.reg.set(15, flag);
                proof {
                    assert(self@ =~= spec_execute(old(self)@, op, rnd, keys).0);
                }
                Ok(StepOutcome::Completed)
            },
            _ => {
                proof {
                    assert(false);
                }
                Err(Chip8Error::AddressOutOfRange)
            },
        }
    }

    /// Index register, timers, keys, and the memory-block instructions.
    fn exec_peripheral(&mut self, op: Opcode, rnd: u8, keys: u16) -> (r: Result<
        StepOutcome,
        Chip8Error,
    >)
        requires
            old(self)@.wf(),
            op.wf(),
            op is LoadAddress || op is AddAddress || op is LoadAddressOfSprite ||
                op is SkipIfPressed || op is SkipIfNotPressed || op is LoadDelayTimer ||
                op is WaitForPress || op is SetDelayTimer || op is SetSoundTimer ||
                op is LoadDigits || op is StoreRegisters || op is LoadRegisters,
        ensures
            final(self)@.wf(),
            final(self)@ == spec_execute(old(self)@, op, rnd, keys).0,
            r == spec_execute(old(self)@, op, rnd, keys).1,
    {
        match op {
            Opcode::LoadAddress(nnn) => {
                self.i_addr = nnn as u16;
                Ok(StepOutcome::Completed)
            },
            Opcode::AddAddress(x) => {
                let xi = x.index() as usize;
                let sum = self.i_addr as u32 + self.reg[xi] as u32;
                self.i_addr = (sum % 0x10000) as u16;
                Ok(StepOutcome::Completed)
            },
            Opcode::LoadAddressOfSprite(x) => {
                let xi = x.index() as usize;
                let low = self.reg[xi] % 16;
                self.i_addr = low as u16 * 5;
                Ok(StepOutcome::Completed)
            },
            Opcode::SkipIfPressed(x) => {
                let xi = x.index() as usize;
                let vx = self.reg[xi];
                if (keys >> ((vx % 16) as u16)) & 1 == 1 {
                    self.skip();
                }
                Ok(StepOutcome::Completed)
            },
            Opcode::SkipIfNotPressed(x) => {
                let xi = x.index() as usize;
                let vx = self.reg[xi];
                if (keys >> ((vx % 16) as u16)) & 1 != 1 {
                    self.skip();
                }
                Ok(StepOutcome::Completed)
            },
            Opcode::LoadDelayTimer(x) => {
                let xi = x.index() as usize;
                let t = self.delay_timer;
                self.reg.set(xi, t);
                Ok(StepOutcome::Completed)
            },
            Opcode::WaitForPress(x) => {
                if keys == 0 {
                    Ok(StepOutcome::WaitingForKey)
                } else {
                    let xi = x.index() as usize;
                    let k = lowest_held_key(keys);
                    self.reg.set(xi, k);
                    Ok(StepOutcome::Completed)
                }
            },
            Opcode::SetDelayTimer(x) => {
                let xi = x.index() as usize;
                self.delay_timer = self.reg[xi];
                Ok(StepOutcome::Completed)
            },
            Opcode::SetSoundTimer(x) => {
                let xi = x.index() as usize;
                self.sound_timer = self.reg[xi];
                Ok(StepOutcome::Completed)
            },
            Opcode::LoadDigits(x) => {
                let ia = self.i_addr as usize;
                if ia + 3 > 4096 {
                    return Err(Chip8Error::AddressOutOfRange);
                }
                let xi = x.index() as usize;
                let v = self.reg[xi];
                self.memory.set(ia, v / 100);
                self.memory.set(ia + 1, (v / 10) % 10);
                self.memory.set(ia + 2, v % 10);
                Ok(StepOutcome::Completed)
            },
            Opcode::StoreRegisters(x) => {
                let ia = self.i_addr as usize;
                let xi = x.index() as usize;
                if ia + xi + 1 > 4096 {
                    return Err(Chip8Error::AddressOutOfRange);
                }
                copy_regs_to_memory(&mut self.memory, &self.reg, ia, xi + 1);
                Ok(StepOutcome::Completed)
            },
            Opcode::LoadRegisters(x) => {
                let ia = self.i_addr as usize;
                let xi = x.index() as usize;
                if ia + xi + 1 > 4096 {
                    return Err(Chip8Error::AddressOutOfRange);
                }
                copy_memory_to_regs(&mut self.reg, &self.memory, ia, xi + 1);
                proof {
                    assert(self@.reg =~= spec_execute(old(self)@, op, rnd, keys).0.reg);
                }
                Ok(StepOutcome::Completed)
            },
            _ => {
                proof {
                    assert(false);
                }
                Err(Chip8Error::AddressOutOfRange)
            },
        }
    }

    /// One fetch-decode-execute cycle. The two bytes at the program counter
    /// are fetched as one big-endian word, the program counter moves past
    /// them, and the decoded instruction runs against the machine while the
    /// keys in `keys` are held. Any fault, and a wait for a key, leaves the
    /// machine exactly as it was. Timers are not touched: they are driven
    /// separately through `tick_timers`.
    pub fn tick(&mut self, keys: u16) -> (r: Result<StepOutcome, Chip8Error>)
        requires
            old(self)@.wf(),
        ensures
            final(self)@.wf(),
            exists|rnd: u8| step_matches(old(self)@, final(self)@, r, rnd, keys),
    {
        if self.pc >= 4095 {
            proof {
                assert(step_matches(
                    old(self)@,
                    self@,
                    Err::<StepOutcome, Chip8Error>(Chip8Error::AddressOutOfRange),
                    0u8,
                    keys,
                ));
            }
            return Err(Chip8Error::AddressOutOfRange);
        }
        let pc0 = self.pc;
        let hi = self.memory[pc0 as usize];
        let lo = self.memory[pc0 as usize + 1];
        let w = ((hi as u16) << 8) | (lo as u16);
        let op = match Opcode::from(w) {
            Ok(op) => op,
            Err(e) => {
                proof {
                    assert(step_matches(old(self)@, self@, Err::<StepOutcome, Chip8Error>(e), 0u8, keys));
                }
                return Err(e);
            },
        };
        self.pc = pc0 + 2;
        let rnd = random_byte();
        let r = self.execute_opcode(op, rnd, keys);
        match r {
            Ok(StepOutcome::Completed) => {},
            _ => {
                // A fault or a wait leaves the machine as it was, the fetch
                // advance included.
                self.pc = pc0;
            },
        }
        proof {
            if !(r == Ok::<StepOutcome, Chip8Error>(StepOutcome::Completed)) {
                assert(self@ =~= old(self)@);
            }
            assert(step_matches(old(self)@, self@, r, rnd, keys));
        }
        r
    }
}

impl Default for Chip8 {
    /// Same as `Chip8::new`: a fresh machine ready to load a program.
    fn default() -> (c: Self)
        ensures
            c@ == spec_new(),
            c@.wf(),
    {
        Chip8::new()
    }
}

/// Adding a constant wraps modulo 256 and has no flag side effect: unless the
/// destination register is the flag register itself, every register but the
/// destination keeps its value, and nothing else in the machine changes.
pub proof fn lemma_add_constant_wraps(pre: Chip8View, x: Register, kk: u8, rnd: u8, keys: u16)
    requires
        pre.wf(),
    ensures
        ({
            let (post, r) = spec_execute(pre, Opcode::AddConstant(x, kk), rnd, keys);
            &&& r == Ok::<StepOutcome, Chip8Error>(StepOutcome::Completed)
            &&& post.reg[x.spec_index()] == (pre.reg[x.spec_index()] + kk) % 256
            &&& forall|j: int| 0 <= j < 16 && j != x.spec_index() ==> post.reg[j] == pre.reg[j]
            &&& post == (Chip8View { reg: post.reg, ..pre })
        }),
{
    vstd::arithmetic::div_mod::lemma_mod_bound(pre.reg[x.spec_index()] + kk, 256);
}

/// The register add sets the flag to exactly the carry of the 8-bit addition,
/// as its final step, and stores the wrapped sum in the destination register.
pub proof fn lemma_add_register_carry(pre: Chip8View, x: Register, y: Register, rnd: u8, keys: u16)
    requires
        pre.wf(),
    ensures
        ({
            let vx = pre.reg[x.spec_index()];
            let vy = pre.reg[y.spec_index()];
            let (post, r) = spec_execute(pre, Opcode::AddRegister(x, y), rnd, keys);
            &&& r == Ok::<StepOutcome, Chip8Error>(StepOutcome::Completed)
            &&& post.reg[15] == (if vx + vy > 255 {
                1u8
            } else {
                0u8
            })
            &&& x.spec_index() != 15 ==> post.reg[x.spec_index()] == (vx + vy) % 256
            &&& forall|j: int|
                0 <= j < 16 && j != x.spec_index() && j != 15 ==> post.reg[j] == pre.reg[j]
            &&& post == (Chip8View { reg: post.reg, ..pre })
        }),
{
    vstd::arithmetic::div_mod::lemma_mod_bound(
        pre.reg[x.spec_index()] + pre.reg[y.spec_index()],
        256,
    );
}

/// The register subtract wraps on borrow and records "no borrow" in the flag:
/// the flag becomes 1 exactly when the destination was strictly greater than
/// the subtrahend, and 0 otherwise, equality included.
pub proof fn lemma_subtract_borrow(pre: Chip8View, x: Register, y: Register, rnd: u8, keys: u16)
    requires
        pre.wf(),
    ensures
        ({
            let vx = pre.reg[x.spec_index()];
            let vy = pre.reg[y.spec_index()];
            let (post, r) = spec_execute(pre, Opcode::SubtractRightRegister(x, y), rnd, keys);
            &&& r == Ok::<StepOutcome, Chip8Error>(StepOutcome::Completed)
            &&& post.reg[15] == (if vx > vy {
                1u8
            } else {
                0u8
            })
            &&& x.spec_index() != 15 ==> post.reg[x.spec_index()] == (if vx >= vy {
                vx - vy
            } else {
                vx - vy + 256
            })
            &&& forall|j: int|
                0 <= j < 16 && j != x.spec_index() && j != 15 ==> post.reg[j] == pre.reg[j]
            &&& post == (Chip8View { reg: post.reg, ..pre })
        }),
{
}

/// A return instruction fetched on an empty call stack faults with a stack
/// underflow and mutates nothing: the whole step leaves the machine, the
/// program counter included, exactly as it was.
pub proof fn lemma_return_underflow(pre: Chip8View, rnd: u8, keys: u16)
    requires
        pre.wf(),
        pre.stack.len() == 0,
        pre.pc + 1 < 4096,
        spec_word_at(pre.memory, pre.pc as int) == 0x00EE,
    ensures
        spec_step(pre, rnd, keys).0 == pre,
        spec_step(pre, rnd, keys).1 == Err::<StepOutcome, Chip8Error>(Chip8Error::StackUnderflow),
{
    assert(spec_op(0x00EE) == 0) by (bit_vector);
}

/// Storing registers 0 through x at the index register and then loading the
/// same range back leaves the register file unchanged; only the stored memory
/// window differs from the starting machine.
pub proof fn lemma_store_load_round_trip(pre: Chip8View, x: Register, rnd: u8, keys: u16)
    requires
        pre.wf(),
        pre.i_addr + x.spec_index() + 1 <= 4096,
    ensures
        ({
            let (mid, r1) = spec_execute(pre, Opcode::StoreRegisters(x), rnd, keys);
            let (post, r2) = spec_execute(mid, Opcode::LoadRegisters(x), rnd, keys);
            &&& r1 == Ok::<StepOutcome, Chip8Error>(StepOutcome::Completed)
            &&& r2 == Ok::<StepOutcome, Chip8Error>(StepOutcome::Completed)
            &&& post.reg == pre.reg
            &&& post == (Chip8View { memory: post.memory, ..pre })
        }),
{
    let (mid, r1) = spec_execute(pre, Opcode::StoreRegisters(x), rnd, keys);
    let (post, r2) = spec_execute(mid, Opcode::LoadRegisters(x), rnd, keys);
    assert(post.reg =~= pre.reg);
}

/// Executing the same draw instruction twice in a row restores the
/// framebuffer: the blit is an XOR, so the second pass undoes the first. The
/// origin registers may not be the flag register, whose value the first draw
/// overwrites.
pub proof fn lemma_draw_twice_restores_screen(
    pre: Chip8View,
    x: Register,
    y: Register,
    n: u8,
    rnd: u8,
    keys: u16,
)
    requires
        pre.wf(),
        x.spec_index() != 15,
        y.spec_index() != 15,
        pre.i_addr + n <= 4096,
    ensures
        ({
            let (mid, r1) = spec_execute(pre, Opcode::DisplaySprite(x, y, n), rnd, keys);
            let (post, r2) = spec_execute(mid, Opcode::DisplaySprite(x, y, n), rnd, keys);
            &&& r1 == Ok::<StepOutcome, Chip8Error>(StepOutcome::Completed)
            &&& r2 == Ok::<StepOutcome, Chip8Error>(StepOutcome::Completed)
            &&& post.screen == pre.screen
        }),
{
    let rows = pre.memory.subrange(pre.i_addr as int, pre.i_addr + n);
    let ox = pre.reg[x.spec_index()] as int;
    let oy = pre.reg[y.spec_index()] as int;
    crate::display::lemma_draw_involution(pre.screen, rows, ox, oy);
}

/// Timer ticks floor at zero: a zero timer stays zero, and a nonzero timer
/// goes down by exactly one; a timer never wraps around.
pub proof fn lemma_timer_floor(t: u8)
    ensures
        dec_timer(0) == 0,
        dec_timer(t) <= t,
        t > 0 ==> dec_timer(t) == t - 1,
{
}

/// Walking up from position `k`, the first held key found is held, is at most
/// any held key at or above `k`, and no key strictly between `k` and it is held.
proof fn lemma_lowest_key_from_finds(keys: u16, k: int, h: int)
    requires
        0 <= k <= h < 16,
        key_down(keys, h),
    ensures
        k <= lowest_key_from(keys, k) <= h,
        key_down(keys, lowest_key_from(keys, k)),
        forall|j: int| k <= j < lowest_key_from(keys, k) ==> !key_down(keys, j),
    decreases h - k,
{
    if !key_down(keys, k) {
        lemma_lowest_key_from_finds(keys, k + 1, h);
    }
}

/// When at least one key is held, the key that the wait-for-key instruction
/// stores is a held key, and no lower key is held.
pub proof fn lemma_lowest_key_is_lowest(keys: u16)
    requires
        keys != 0,
    ensures
        0 <= lowest_key(keys) < 16,
        key_down(keys, lowest_key(keys)),
        forall|j: int| 0 <= j < lowest_key(keys) ==> !key_down(keys, j),
{
    assert(key_down(keys, 0) || key_down(keys, 1) || key_down(keys, 2) || key_down(keys, 3)
        || key_down(keys, 4) || key_down(keys, 5) || key_down(keys, 6) || key_down(keys, 7)
        || key_down(keys, 8) || key_down(keys, 9) || key_down(keys, 10) || key_down(keys, 11)
        || key_down(keys, 12) || key_down(keys, 13) || key_down(keys, 14) || key_down(keys, 15))
        by (bit_vector)
        requires
            keys != 0,
    ;
    let h = choose|h: int| 0 <= h < 16 && key_down(keys, h);
    lemma_lowest_key_from_finds(keys, 0, h);
}

/// Only the random-byte instruction reads the random generator: when the
/// fetched word decodes to anything else, or does not decode at all, the step
/// is the same whatever byte the generator returned.
pub proof fn lemma_step_ignores_random(pre: Chip8View, ra: u8, rb: u8, keys: u16)
    requires
        pre.pc + 1 >= 4096 || (spec_decode(spec_word_at(pre.memory, pre.pc as int)) matches Some(op)
            ==> !(op is Random)),
    ensures
        spec_step(pre, ra, keys) == spec_step(pre, rb, keys),
{
    if pre.pc + 1 < 4096 {
        let w = spec_word_at(pre.memory, pre.pc as int);
        match spec_decode(w) {
            None => {},
            Some(op) => {
                let mid = Chip8View { pc: (pre.pc + 2) as u16, ..pre };
                match op {
                    Opcode::Random(_, _) => {
                        assert(false);
                    },
                    _ => {
                        assert(spec_execute(mid, op, ra, keys) == spec_execute(mid, op, rb, keys));
                    },
                }
            },
        }
    }
}

} // verus!
