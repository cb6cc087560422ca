//! The interpreter: register file, memory, call stack, delay timer, and the
//! fetch-decode-execute cycle over the framebuffer and keypad.
//!
//! The abstract state is [`CpuView`]; one call of [`Cpu::process_opcode`]
//! takes the state to [`step_with`] of it. The random byte drawn for the
//! `Cxnn` instruction is existentially quantified: every other instruction
//! is deterministic and ignores it.

use vstd::prelude::*;
use vstd::arithmetic::div_mod::{lemma_mod_add_multiples_vanish, lemma_small_mod};
use rand::Rng;
use crate::display::{blit, blit_collides, Display};
use crate::keypad::Keypad;

verus! {

/// The conventional program-load address that `reset` sets `pc` to.
pub const PROGRAM_START: u16 = 0x200;

/// The fixed 80-byte hexadecimal glyph table (16 glyphs of 5 bytes each)
/// that `reset` loads at memory addresses 0x000 through 0x04F.
pub open spec fn font_seq() -> Seq<u8> {
    seq![
        0xF0u8, 0x90, 0x90, 0x90, 0xF0, // 0
        0x20, 0x60, 0x20, 0x20, 0x70, // 1
        0xF0, 0x10, 0xF0, 0x80, 0xF0, // 2
        0xF0, 0x10, 0xF0, 0x10, 0xF0, // 3
        0x90, 0x90, 0xF0, 0x10, 0x10, // 4
        0xF0, 0x80, 0xF0, 0x10, 0xF0, // 5
        0xF0, 0x80, 0xF0, 0x90, 0xF0, // 6
        0xF0, 0x10, 0x20, 0x40, 0x40, // 7
        0xF0, 0x90, 0xF0, 0x90, 0xF0, // 8
        0xF0, 0x90, 0xF0, 0x10, 0xF0, // 9
        0xF0, 0x90, 0xF0, 0x90, 0x90, // A
        0xE0, 0x90, 0xE0, 0x90, 0xE0, // B
        0xF0, 0x80, 0x80, 0x80, 0xF0, // C
        0xE0, 0x90, 0x90, 0x90, 0xE0, // D
        0xF0, 0x80, 0xF0, 0x80, 0xF0, // E
        0xF0, 0x80, 0xF0, 0x80, 0x80, // F
    ]
}

/// The abstract interpreter state: every machine-visible component except
/// the random source, which no contract can pin down.
#[verifier::ext_equal]
pub struct CpuView {
    /// Index register.
    pub i: u16,
    /// Program counter.
    pub pc: u16,
    /// 4096 bytes of memory.
    pub memory: Seq<u8>,
    /// The 16 general registers V0 through VF.
    pub v: Seq<u8>,
    /// The 16 return-address slots of the call stack.
    pub stack: Seq<u16>,
    /// Number of call-stack entries in use.
    pub sp: u8,
    /// Delay timer.
    pub dt: u8,
    /// The 64x32 framebuffer pixels, row-major.
    pub screen: Seq<bool>,
    /// The 16 keypad states.
    pub keys: Seq<bool>,
}

impl CpuView {
    /// Sizes of every component, and the stack pointer in range.
    pub open spec fn wf(&self) -> bool {
        &&& self.memory.len() == 4096
        &&& self.v.len() == 16
        &&& self.stack.len() == 16
        &&& self.sp <= 16
        &&& self.screen.len() == 2048
        &&& self.keys.len() == 16
    }
}

/// The big-endian 16-bit instruction word at address `pc`.
pub open spec fn spec_opcode(memory: Seq<u8>, pc: u16) -> u16 {
    (memory[pc as int] * 256 + memory[pc as int + 1]) as u16
}

/// The state after executing one instruction from state `pre`, where `rnd`
/// is the byte drawn from the random source (used only by `Cxnn`).
///
/// The program counter is advanced by 2 before dispatch, so jumps and skips
/// operate on the post-advance value. An opcode matching no defined pattern
/// is a no-op. Two conditions the instruction table leaves open are settled
/// here explicitly: a `00EE` with an empty stack and a `2nnn` with a full
/// stack are ignored (the cycle only advances `pc`), and `Fx1E` wraps the
/// index register modulo 2^16. A `Dxyn` sprite read is clamped to the end
/// of memory, and the key index of `Ex9E`/`ExA1` is masked to its low
/// nibble, as register indices are.
pub open spec fn step_with(pre: CpuView, rnd: u8) -> CpuView {
    let op = spec_opcode(pre.memory, pre.pc);
    let op1 = op / 0x1000;
    let op4 = op % 0x10;
    let x = ((op / 0x100) % 0x10) as int;
    let y = ((op / 0x10) % 0x10) as int;
    let nnn = (op % 0x1000) as u16;
    let nn = (op % 0x100) as u8;
    let vx = pre.v[x];
    let vy = pre.v[y];
    let s = CpuView { pc: (pre.pc + 2) as u16, ..pre };
    if op == 0x00E0 {
        CpuView { screen: Seq::new(2048, |c: int| false), ..s }
    } else if op == 0x00EE {
        if pre.sp == 0 {
            s
        } else {
            CpuView { sp: (pre.sp - 1) as u8, pc: pre.stack[pre.sp - 1], ..s }
        }
    } else if op1 == 0x1 {
        CpuView { pc: nnn, ..s }
    } else if op1 == 0x2 {
        if pre.sp == 16 {
            s
        } else {
            CpuView {
                stack: pre.stack.update(pre.sp as int, s.pc),
                sp: (pre.sp + 1) as u8,
                pc: nnn,
                ..s
            }
        }
    } else if op1 == 0x3 {
        if vx == nn {
            CpuView { pc: (s.pc + 2) as u16, ..s }
        } else {
            s
        }
    } else if op1 == 0x4 {
        if vx != nn {
            CpuView { pc: (s.pc + 2) as u16, ..s }
        } else {
            s
        }
    } else if op1 == 0x5 && op4 == 0x0 {
        if vx == vy {
            CpuView { pc: (s.pc + 2) as u16, ..s }
        } else {
            s
        }
    } else if op1 == 0x6 {
        CpuView { v: pre.v.update(x, nn), ..s }
    } else if op1 == 0x7 {
        CpuView { v: pre.v.update(x, ((vx + nn) % 256) as u8), ..s }
    } else if op1 == 0x8 && op4 == 0x0 {
        CpuView { v: pre.v.update(x, vy), ..s }
    } else if op1 == 0x8 && op4 == 0x1 {
        CpuView { v: pre.v.update(x, vx | vy), ..s }
    } else if op1 == 0x8 && op4 == 0x2 {
        CpuView { v: pre.v.update(x, vx & vy), ..s }
    } else if op1 == 0x8 && op4 == 0x3 {
        CpuView { v: pre.v.update(x, vx ^ vy), ..s }
    } else if op1 == 0x8 && op4 == 0x4 {
        let flag: u8 = if vx + vy > 255 {
            1
        } else {
            0
        };
        CpuView { v: pre.v.update(15, flag).update(x, ((vx + vy) % 256) as u8), ..s }
    } else if op1 == 0x8 && op4 == 0x5 {
        let flag: u8 = if vx < vy {
            0
        } else {
            1
        };
        let res: u8 = if vx >= vy {
            (vx - vy) as u8
        } else {
            (vx - vy + 256) as u8
        };
        CpuView { v: pre.v.update(15, flag).update(x, res), ..s }
    } else if op1 == 0x8 && op4 == 0x6 {
        let v1 = pre.v.update(15, vx & 1);
        CpuView { v: v1.update(x, v1[x] >> 1u8), ..s }
    } else if op1 == 0x8 && op4 == 0x7 {
        let flag: u8 = if vy < vx {
            0
        } else {
            1
        };
        let res: u8 = if vy >= vx {
            (vy - vx) as u8
        } else {
            (vy - vx + 256) as u8
        };
        CpuView { v: pre.v.update(15, flag).update(x, res), ..s }
    } else if op1 == 0x8 && op4 == 0xE {
        let v1 = pre.v.update(15, (vx & 0x80) >> 7u8);
        CpuView { v: v1.update(x, v1[x] << 1u8), ..s }
    } else if op1 == 0x9 && op4 == 0x0 {
        if vx != vy {
            CpuView { pc: (s.pc + 2) as u16, ..s }
        } else {
            s
        }
    } else if op1 == 0xA {
        CpuView { i: nnn, ..s }
    } else if op1 == 0xB {
        CpuView { pc: (nnn + pre.v[0]) as u16, ..s }
    } else if op1 == 0xC {
        CpuView { v: pre.v.update(x, rnd & nn), ..s }
    } else if op1 == 0xD {
        let lo: int = if pre.i < 4096 {
            pre.i as int
        } else {
            4096
        };
        let hi: int = if pre.i + op4 < 4096 {
            pre.i + op4
        } else {
            4096
        };
        let sprite = pre.memory.subrange(lo, hi);
        let flag: u8 = if blit_collides(pre.screen, vx as int, vy as int, sprite) {
            1
        } else {
            0
        };
        CpuView {
            screen: blit(pre.screen, vx as int, vy as int, sprite),
            v: pre.v.update(15, flag),
            ..s
        }
    } else if op1 == 0xE && nn == 0x9E {
        if pre.keys[(vx % 16) as int] {
            CpuView { pc: (s.pc + 2) as u16, ..s }
        } else {
            s
        }
    } else if op1 == 0xE && nn == 0xA1 {
        if !pre.keys[(vx % 16) as int] {
            CpuView { pc: (s.pc + 2) as u16, ..s }
        } else {
            s
        }
    } else if op1 == 0xF && nn == 0x07 {
        CpuView { v: pre.v.update(x, pre.dt), ..s }
    } else if op1 == 0xF && nn == 0x15 {
        CpuView { dt: vx, ..s }
    } else if op1 == 0xF && nn == 0x1E {
        CpuView { i: ((pre.i + vx) % 0x10000) as u16, ..s }
    } else {
        s
    }
}

/// `rand::rngs::ThreadRng` is the thread-local random generator the
/// interpreter owns; Verus treats values of it as opaque.
#[verifier::external_type_specification]
#[verifier::external_body]
pub struct ExThreadRng(rand::rngs::ThreadRng);

/// Relies on `rand::thread_rng`: a handle to the thread-local generator.
#[verifier::external_body]
fn fresh_rng() -> rand::rngs::ThreadRng {
    rand::thread_rng()
}

/// Relies on `rand::Rng::gen_range(0, 255)`: a uniformly distributed byte
/// in the half-open range [0, 255). Beyond the exclusive upper bound,
/// nothing can be promised of a random value.
#[verifier::external_body]
fn random_byte(rng: &mut rand::rngs::ThreadRng) -> (r: u8)
    ensures
        r < 255,
{
    rng.gen_range(0, 255)
}

/// The interpreter.
pub struct Cpu {
    i: u16,
    pc: u16,
    memory: Vec<u8>,
    v: Vec<u8>,
    stack: Vec<u16>,
    sp: u8,
    dt: u8,
    rng: rand::rngs::ThreadRng,
    display: Display,
    keypad: Keypad,
}

impl View for Cpu {
    type V = CpuView;

    closed spec fn view(&self) -> CpuView {
        CpuView {
            i: self.i,
            pc: self.pc,
            memory: self.memory@,
            v: self.v@,
            stack: self.stack@,
            sp: self.sp,
            dt: self.dt,
            screen: self.display@,
            keys: self.keypad@,
        }
    }
}

impl Cpu {
    /// A zero-initialized interpreter; `reset` must run before execution.
    pub fn new() -> (cpu: Cpu)
        ensures
            cpu@.wf(),
            cpu@.i == 0,
            cpu@.pc == 0,
            cpu@.sp == 0,
            cpu@.dt == 0,
            forall|k: int| 0 <= k < 4096 ==> cpu@.memory[k] == 0,
            forall|k: int| 0 <= k < 16 ==> cpu@.v[k] == 0,
            forall|k: int| 0 <= k < 16 ==> cpu@.stack[k] == 0,
            forall|c: int| 0 <= c < 2048 ==> !cpu@.screen[c],
            forall|k: int| 0 <= k < 16 ==> !cpu@.keys[k],
    {
        Cpu {
            i: 0,
            pc: 0,
            memory: zero_bytes(4096),
            v: zero_bytes(16),
            stack: zero_words(16),
            sp: 0,
            dt: 0,
            rng: fresh_rng(),
            display: Display::new(),
            keypad: Keypad::new(),
        }
    }

    /// Zero every component, load the font table at addresses 0x000-0x04F,
    /// clear the screen, and point `pc` at the program-load address. The
    /// keypad is left as it is: keys are released only by explicit key-up
    /// events from the input collaborator.
    pub fn reset(&mut self)
        requires
            old(self)@.wf(),
        ensures
            final(self)@.wf(),
            final(self)@.i == 0,
            final(self)@.pc == 0x200,
            final(self)@.sp == 0,
            final(self)@.dt == 0,
            forall|k: int| 0 <= k < 80 ==> final(self)@.memory[k] == font_seq()[k],
            forall|k: int| 80 <= k < 4096 ==> final(self)@.memory[k] == 0,
            forall|k: int| 0 <= k < 16 ==> final(self)@.v[k] == 0,
            forall|k: int| 0 <= k < 16 ==> final(self)@.stack[k] == 0,
            forall|c: int| 0 <= c < 2048 ==> !final(self)@.screen[c],
            final(self)@.keys == old(self)@.keys,
    {
        let mut mem = zero_bytes(4096);
        let font = font_set();
        let mut k: usize = 0;
        while k < 80
            invariant
                k <= 80,
                mem@.len() == 4096,
                font@ == font_seq(),
                forall|idx: int| 0 <= idx < k ==> mem@[idx] == font_seq()[idx],
                forall|idx: int| k <= idx < 4096 ==> mem@[idx] == 0,
            decreases 80 - k,
        {
            mem.set(k, font[k]);
            k = k + 1;
        }
        self.i = 0;
        self.pc = PROGRAM_START;
        self.memory = mem;
        self.v = zero_bytes(16);
        self.stack = zero_words(16);
        self.sp = 0;
        self.dt = 0;
        self.rng = fresh_rng();
        self.display.cls();
    }

    /// Turn on the pixel at the screen origin.
    pub fn set_pixel(&mut self)
        requires
            old(self)@.wf(),
        ensures
            final(self)@.wf(),
            final(self)@ == (CpuView { screen: old(self)@.screen.update(0, true), ..old(self)@ }),
    {
        self.display.set_pixel(0, 0, true);
    }

    /// If the delay timer is positive, decrement it; at zero it stays.
    /// Called by the external driver at its own fixed cadence.
    pub fn decrement_timers(&mut self)
        ensures
            final(self)@ == (CpuView {
                dt: if old(self)@.dt > 0 {
                    (old(self)@.dt - 1) as u8
                } else {
                    0
                },
                ..old(self)@
            }),
    {
        if self.dt > 0 {
            self.dt = self.dt - 1;
        }
    }

    /// The big-endian instruction word at `pc`. The caller must keep `pc`
    /// below 4095 so that both bytes lie in memory.
    pub fn current_opcode(&self) -> (op: u16)
        requires
            self@.wf(),
            self@.pc < 4095,
        ensures
            op == spec_opcode(self@.memory, self@.pc),
    {
        let hi = self.memory[self.pc as usize];
        let lo = self.memory[self.pc as usize + 1];
        let op: u16 = ((hi as u16) << 8u16) | (lo as u16);
        proof {
            let h = hi as u16;
            let l = lo as u16;
            assert(((h << 8u16) | l) == h * 256 + l) by (bit_vector)
                requires
                    h < 256,
                    l < 256,
            ;
        }
        op
    }

    /// Execute one fetch-decode-execute cycle: read the instruction at
    /// `pc`, advance `pc` by 2, and perform the instruction's effect on the
    /// state — [`step_with`] says exactly what that effect is. The byte
    /// drawn from the random source for `Cxnn` is existentially
    /// quantified; every instruction other than `Cxnn` lands on
    /// `step_with(pre, 0)`.
    #[verifier::rlimit(100)]
    pub fn process_opcode(&mut self)
        requires
            old(self)@.wf(),
            old(self)@.pc < 4095,
        ensures
            final(self)@.wf(),
            exists|r: u8| final(self)@ == step_with(old(self)@, r),
            spec_opcode(old(self)@.memory, old(self)@.pc) / 0x1000 != 0xC ==> final(self)@
                == step_with(old(self)@, 0),
    {
        let ghost pre = self@;
        let opcode = self.current_opcode();
        let x16: u16 = (opcode & 0x0F00) >> 8u16;
        let y16: u16 = (opcode & 0x00F0) >> 4u16;
        let nnn: u16 = opcode & 0x0FFF;
        let nn16: u16 = opcode & 0x00FF;
        let n16: u16 = opcode & 0x000F;
        let op1: u16 = (opcode & 0xF000) >> 12u16;
        let op4: u16 = opcode & 0x000F;
        proof {
            assert((opcode & 0x0F00) >> 8u16 == (opcode / 0x100) % 0x10 && (opcode & 0x00F0)
                >> 4u16 == (opcode / 0x10) % 0x10 && (opcode & 0x0FFF) == opcode % 0x1000 && (
            opcode & 0x00FF) == opcode % 0x100 && (opcode & 0x000F) == opcode % 0x10 && (opcode
                & 0xF000) >> 12u16 == opcode / 0x1000) by (bit_vector);
        }
        let x = x16 as usize;
        let y = y16 as usize;
        let nn = nn16 as u8;
        let vx = self.v[x];
        let vy = self.v[y];
        self.pc = self.pc + 2;
        if opcode == 0x00E0 {
            self.display.cls();
            proof {
                assert(self@.screen =~= Seq::new(2048, |c: int| false));
                assert(self@ =~= step_with(pre, 0));
            }
        } else if opcode == 0x00EE {
            if self.sp > 0 {
                self.sp = self.sp - 1;
                self.pc = self.stack[self.sp as usize];
            }
            proof {
                assert(self@ =~= step_with(pre, 0));
            }
        } else if op1 == 0x1 {
            self.pc = nnn;
            proof {
                assert(self@ =~= step_with(pre, 0));
            }
        } else if op1 == 0x2 {
            if self.sp < 16 {
                self.stack.set(self.sp as usize, self.pc);
                self.sp = self.sp + 1;
                self.pc = nnn;
            }
            proof {
                assert(self@ =~= step_with(pre, 0));
            }
        } else if op1 == 0x3 {
            if vx == nn {
                self.pc = self.pc + 2;
            }
            proof {
                assert(self@ =~= step_with(pre, 0));
            }
        } else if op1 == 0x4 {
            if vx != nn {
                self.pc = self.pc + 2;
            }
            proof {
                assert(self@ =~= step_with(pre, 0));
            }
        } else if op1 == 0x5 && op4 == 0x0 {
            if vx == vy {
                self.pc = self.pc + 2;
            }
            proof {
                assert(self@ =~= step_with(pre, 0));
            }
        } else if op1 == 0x6 {
            self.v.set(x, nn);
            proof {
                assert(self@ =~= step_with(pre, 0));
            }
        } else if op1 == 0x7 {
            let sum: u16 = vx as u16 + nn as u16;
            self.v.set(x, (sum % 256) as u8);
            proof {
                assert(self@ =~= step_with(pre, 0));
            }
        } else if op1 == 0x8 && op4 == 0x0 {
            self.v.set(x, vy);
            proof {
                assert(self@ =~= step_with(pre, 0));
            }
        } else if op1 == 0x8 && op4 == 0x1 {
            self.v.set(x, vx | vy);
            proof {
                assert(self@ =~= step_with(pre, 0));
            }
        } else if op1 == 0x8 && op4 == 0x2 {
            self.v.set(x, vx & vy);
            proof {
                assert(self@ =~= step_with(pre, 0));
            }
        } else if op1 == 0x8 && op4 == 0x3 {
            self.v.set(x, vx ^ vy);
            proof {
                assert(self@ =~= step_with(pre, 0));
            }
        } else if op1 == 0x8 && op4 == 0x4 {
            let sum: u16 = vx as u16 + vy as u16;
            let flag: u8 = if sum > 255 {
                1
            } else {
                0
            };
            self.v.set(15, flag);
            self.v.set(x, (sum % 256) as u8);
            proof {
                assert(self@ =~= step_with(pre, 0));
            }
        } else if op1 == 0x8 && op4 == 0x5 {
            let flag: u8 = if vx < vy {
                0
            } else {
                1
            };
            let res: u8 = if vx >= vy {
                vx - vy
            } else {
                ((vx as u16 + 256) - vy as u16) as u8
            };
            self.v.set(15, flag);
            self.v.set(x, res);
            proof {
                assert(self@ =~= step_with(pre, 0));
            }
        } else if op1 == 0x8 && op4 == 0x6 {
            self.v.set(15, vx & 1);
            let cur = self.v[x];
            self.v.set(x, cur >> 1u8);
            proof {
                assert(self@ =~= step_with(pre, 0));
            }
        } else if op1 == 0x8 && op4 == 0x7 {
            let flag: u8 = if vy < vx {
                0
            } else {
                1
            };
            let res: u8 = if vy >= vx {
                vy - vx
            } else {
                ((vy as u16 + 256) - vx as u16) as u8
            };
            self.v.set(15, flag);
            self.v.set(x, res);
            proof {
                assert(self@ =~= step_with(pre, 0));
            }
        } else if op1 == 0x8 && op4 == 0xE {
            self.v.set(15, (vx & 0x80) >> 7u8);
            let cur = self.v[x];
            self.v.set(x, cur << 1u8);
            proof {
                assert(self@ =~= step_with(pre, 0));
            }
        } else if op1 == 0x9 && op4 == 0x0 {
            if vx != vy {
                self.pc = self.pc + 2;
            }
            proof {
                assert(self@ =~= step_with(pre, 0));
            }
        } else if op1 == 0xA {
            self.i = nnn;
            proof {
                assert(self@ =~= step_with(pre, 0));
            }
        } else if op1 == 0xB {
            self.pc = nnn + self.v[0] as u16;
            proof {
                assert(self@ =~= step_with(pre, 0));
            }
        } else if op1 == 0xC {
            let r = random_byte(&mut self.rng);
            self.v.set(x, r & nn);
            proof {
                assert(self@ =~= step_with(pre, r));
            }
        } else if op1 == 0xD {
            let n_us = n16 as usize;
            let i_us = self.i as usize;
            let lo: usize = if i_us < 4096 {
                i_us
            } else {
                4096
            };
            let e: usize = i_us + n_us;
            let hi: usize = if e < 4096 {
                e
            } else {
                4096
            };
            let mut sprite: Vec<u8> = Vec::new();
            let mut k: usize = lo;
            proof {
                assert(sprite@ =~= pre.memory.subrange(lo as int, lo as int));
            }
            while k < hi
                invariant
                    pre.memory.len() == 4096,
                    self@.memory == pre.memory,
                    lo <= k <= hi,
                    hi <= 4096,
                    sprite@ == pre.memory.subrange(lo as int, k as int),
                decreases hi - k,
            {
                let byte = self.memory[k];
                sprite.push(byte);
                proof {
                    assert(sprite@ =~= pre.memory.subrange(lo as int, k as int + 1));
                }
                k = k + 1;
            }
            let col = self.display.draw(vx as usize, vy as usize, sprite.as_slice());
            let flag: u8 = if col {
                1
            } else {
                0
            };
            self.v.set(15, flag);
            proof {
                assert(self@ =~= step_with(pre, 0));
            }
        } else if op1 == 0xE && nn16 == 0x9E {
            let key = vx & 0xF;
            proof {
                assert(vx & 0xF == vx % 16) by (bit_vector);
            }
            if self.keypad.is_key_down(key) {
                self.pc = self.pc + 2;
            }
            proof {
                assert(self@ =~= step_with(pre, 0));
            }
        } else if op1 == 0xE && nn16 == 0xA1 {
            let key = vx & 0xF;
            proof {
                assert(vx & 0xF == vx % 16) by (bit_vector);
            }
            if !self.keypad.is_key_down(key) {
                self.pc = self.pc + 2;
            }
            proof {
                assert(self@ =~= step_with(pre, 0));
            }
        } else if op1 == 0xF && nn16 == 0x07 {
            let cur_dt = self.dt;
            self.v.set(x, cur_dt);
            proof {
                assert(self@ =~= step_with(pre, 0));
            }
        } else if op1 == 0xF && nn16 == 0x15 {
            self.dt = vx;
            proof {
                assert(self@ =~= step_with(pre, 0));
            }
        } else if op1 == 0xF && nn16 == 0x1E {
            let sum32: u32 = self.i as u32 + vx as u32;
            self.i = (sum32 % 0x10000) as u16;
            proof {
                assert(self@ =~= step_with(pre, 0));
            }
        } else {
            proof {
                assert(self@ =~= step_with(pre, 0));
            }
        }
    }

    /// The program counter.
    pub fn pc(&self) -> (r: u16)
        ensures
            r == self@.pc,
    {
        self.pc
    }

    /// The index register.
    pub fn i(&self) -> (r: u16)
        ensures
            r == self@.i,
    {
        self.i
    }

    /// The stack pointer: the number of call-stack entries in use.
    pub fn sp(&self) -> (r: u8)
        ensures
            r == self@.sp,
    {
        self.sp
    }

    /// The delay timer.
    pub fn dt(&self) -> (r: u8)
        ensures
            r == self@.dt,
    {
        self.dt
    }

    /// Register `Vx`.
    pub fn reg(&self, x: u8) -> (r: u8)
        requires
            self@.wf(),
            x < 16,
        ensures
            r == self@.v[x as int],
    {
        self.v[x as usize]
    }

    /// Call-stack entry `k`.
    pub fn stack_at(&self, k: u8) -> (r: u16)
        requires
            self@.wf(),
            k < 16,
        ensures
            r == self@.stack[k as int],
    {
        self.stack[k as usize]
    }

    /// The memory byte at `addr`.
    pub fn memory_at(&self, addr: u16) -> (r: u8)
        requires
            self@.wf(),
            addr < 4096,
        ensures
            r == self@.memory[addr as int],
    {
        self.memory[addr as usize]
    }

    /// Whether the framebuffer pixel at `(x, y)` is on.
    pub fn pixel(&self, x: usize, y: usize) -> (on: bool)
        requires
            self@.wf(),
            x < 64,
            y < 32,
        ensures
            on == self@.screen[x + y * 64],
    {
        self.display.get_pixel(x, y)
    }

    /// Set the program counter.
    pub fn set_pc(&mut self, val: u16)
        ensures
            final(self)@ == (CpuView { pc: val, ..old(self)@ }),
    {
        self.pc = val;
    }

    /// Set the index register.
    pub fn set_i(&mut self, val: u16)
        ensures
            final(self)@ == (CpuView { i: val, ..old(self)@ }),
    {
        self.i = val;
    }

    /// Set the stack pointer.
    pub fn set_sp(&mut self, val: u8)
        requires
            val <= 16,
        ensures
            final(self)@ == (CpuView { sp: val, ..old(self)@ }),
    {
        self.sp = val;
    }

    /// Set the delay timer.
    pub fn set_dt(&mut self, val: u8)
        ensures
            final(self)@ == (CpuView { dt: val, ..old(self)@ }),
    {
        self.dt = val;
    }

    /// Set register `Vx`.
    pub fn set_reg(&mut self, x: u8, val: u8)
        requires
            old(self)@.wf(),
            x < 16,
        ensures
            final(self)@ == (CpuView { v: old(self)@.v.update(x as int, val), ..old(self)@ }),
    {
        self.v.set(x as usize, val);
    }

    /// Write the memory byte at `addr`. The external loader uses this to
    /// place the program bytes before the first cycle.
    pub fn set_mem(&mut self, addr: u16, val: u8)
        requires
            old(self)@.wf(),
            addr < 4096,
        ensures
            final(self)@ == (CpuView {
                memory: old(self)@.memory.update(addr as int, val),
                ..old(self)@
            }),
    {
        self.memory.set(addr as usize, val);
    }

    /// Write call-stack entry `k`.
    pub fn set_stack(&mut self, k: u8, val: u16)
        requires
            old(self)@.wf(),
            k < 16,
        ensures
            final(self)@ == (CpuView {
                stack: old(self)@.stack.update(k as int, val),
                ..old(self)@
            }),
    {
        self.stack.set(k as usize, val);
    }

    /// Latch key `k` down; called by the external input collaborator.
    pub fn key_down(&mut self, k: u8)
        requires
            old(self)@.wf(),
            k < 16,
        ensures
            final(self)@ == (CpuView { keys: old(self)@.keys.update(k as int, true), ..old(self)@ }),
    {
        self.keypad.key_down(k);
    }

    /// Release key `k`; called by the external input collaborator.
    pub fn key_up(&mut self, k: u8)
        requires
            old(self)@.wf(),
            k < 16,
        ensures
            final(self)@ == (CpuView {
                keys: old(self)@.keys.update(k as int, false),
                ..old(self)@
            }),
    {
        self.keypad.key_up(k);
    }

    /// Whether key `k` is currently down.
    pub fn key(&self, k: u8) -> (down: bool)
        requires
            self@.wf(),
            k < 16,
        ensures
            down == self@.keys[k as int],
    {
        self.keypad.is_key_down(k)
    }
}

/// One cycle preserves well-formedness: in particular the stack pointer
/// never exceeds 16, and every component keeps its size.
pub proof fn lemma_step_preserves_wf(pre: CpuView, rnd: u8)
    requires
        pre.wf(),
    ensures
        step_with(pre, rnd).wf(),
{
    let op = spec_opcode(pre.memory, pre.pc);
    let op4 = op % 0x10;
    let x = ((op / 0x100) % 0x10) as int;
    let y = ((op / 0x10) % 0x10) as int;
    let lo: int = if pre.i < 4096 {
        pre.i as int
    } else {
        4096
    };
    let hi: int = if pre.i + op4 < 4096 {
        pre.i + op4
    } else {
        4096
    };
    crate::display::lemma_blit_from_len(
        pre.screen,
        pre.v[x] as int,
        pre.v[y] as int,
        pre.memory.subrange(lo, hi),
        0,
    );
}

/// For every pair of registers, `8xy4` stores `(Vx + Vy) mod 256` in `Vx`
/// and sets `VF` to 1 exactly when `Vx + Vy` exceeds 255, and to 0
/// otherwise. The one exception is `x = F`: the stored sum then overwrites
/// the flag, so the flag register is excluded from the claim.
pub proof fn lemma_add_sets_carry(pre: CpuView, rnd: u8)
    requires
        pre.wf(),
        spec_opcode(pre.memory, pre.pc) / 0x1000 == 0x8,
        spec_opcode(pre.memory, pre.pc) % 0x10 == 0x4,
        (spec_opcode(pre.memory, pre.pc) / 0x100) % 0x10 != 0xF,
    ensures
        ({
            let x = ((spec_opcode(pre.memory, pre.pc) / 0x100) % 0x10) as int;
            let y = ((spec_opcode(pre.memory, pre.pc) / 0x10) % 0x10) as int;
            let post = step_with(pre, rnd);
            &&& post.v[x] == (pre.v[x] + pre.v[y]) % 256
            &&& (post.v[15] == 1 <==> pre.v[x] + pre.v[y] > 255)
            &&& (post.v[15] == 0 <==> pre.v[x] + pre.v[y] <= 255)
        }),
{
}

/// For every pair of registers, `8xy5` stores `(Vx - Vy) mod 256` in `Vx`
/// and sets `VF` to 0 exactly when the subtraction borrows (`Vx < Vy`),
/// and to 1 otherwise. As with the carry law, `x = F` is excluded: the
/// stored result then overwrites the flag.
pub proof fn lemma_sub_sets_borrow(pre: CpuView, rnd: u8)
    requires
        pre.wf(),
        spec_opcode(pre.memory, pre.pc) / 0x1000 == 0x8,
        spec_opcode(pre.memory, pre.pc) % 0x10 == 0x5,
        (spec_opcode(pre.memory, pre.pc) / 0x100) % 0x10 != 0xF,
    ensures
        ({
            let x = ((spec_opcode(pre.memory, pre.pc) / 0x100) % 0x10) as int;
            let y = ((spec_opcode(pre.memory, pre.pc) / 0x10) % 0x10) as int;
            let post = step_with(pre, rnd);
            &&& post.v[x] == (pre.v[x] - pre.v[y]) % 256
            &&& (post.v[15] == 0 <==> pre.v[x] < pre.v[y])
            &&& (post.v[15] == 1 <==> pre.v[x] >= pre.v[y])
        }),
{
    let x = ((spec_opcode(pre.memory, pre.pc) / 0x100) % 0x10) as int;
    let y = ((spec_opcode(pre.memory, pre.pc) / 0x10) % 0x10) as int;
    let d = pre.v[x] - pre.v[y];
    if pre.v[x] >= pre.v[y] {
        lemma_small_mod(d as nat, 256);
    } else {
        lemma_mod_add_multiples_vanish(d, 256);
        lemma_small_mod((d + 256) as nat, 256);
    }
}

/// `8xy6` always parks the pre-shift least significant bit of `Vx` in
/// `VF`, independent of the shifted value: the flag is read before the
/// shift is stored. Excluded is `x = F`, where the shift then lands on the
/// freshly written flag itself.
pub proof fn lemma_shr_sets_flag(pre: CpuView, rnd: u8)
    requires
        pre.wf(),
        spec_opcode(pre.memory, pre.pc) / 0x1000 == 0x8,
        spec_opcode(pre.memory, pre.pc) % 0x10 == 0x6,
        (spec_opcode(pre.memory, pre.pc) / 0x100) % 0x10 != 0xF,
    ensures
        ({
            let x = ((spec_opcode(pre.memory, pre.pc) / 0x100) % 0x10) as int;
            let post = step_with(pre, rnd);
            &&& post.v[15] == pre.v[x] & 1
            &&& post.v[x] == pre.v[x] >> 1u8
        }),
{
}

/// `8xyE` always parks the pre-shift most significant bit of `Vx` in
/// `VF`, independent of the shifted value. Excluded is `x = F`, as for the
/// right shift.
pub proof fn lemma_shl_sets_flag(pre: CpuView, rnd: u8)
    requires
        pre.wf(),
        spec_opcode(pre.memory, pre.pc) / 0x1000 == 0x8,
        spec_opcode(pre.memory, pre.pc) % 0x10 == 0xE,
        (spec_opcode(pre.memory, pre.pc) / 0x100) % 0x10 != 0xF,
    ensures
        ({
            let x = ((spec_opcode(pre.memory, pre.pc) / 0x100) % 0x10) as int;
            let post = step_with(pre, rnd);
            &&& post.v[15] == (pre.v[x] & 0x80) >> 7u8
            &&& post.v[x] == pre.v[x] << 1u8
        }),
{
}

/// `Fx0A` (wait for keypress) and `Fx18` (set sound timer) are not
/// implemented: executing either changes nothing but the normal advance of
/// `pc` by 2, for any register, timer and memory state.
pub proof fn lemma_unimplemented_are_noops(pre: CpuView, rnd: u8)
    requires
        pre.wf(),
        spec_opcode(pre.memory, pre.pc) / 0x1000 == 0xF,
        spec_opcode(pre.memory, pre.pc) % 0x100 == 0x0A || spec_opcode(pre.memory, pre.pc) % 0x100
            == 0x18,
    ensures
        step_with(pre, rnd) == (CpuView { pc: (pre.pc + 2) as u16, ..pre }),
{
}

/// A vector of `n` zero bytes.
fn zero_bytes(n: usize) -> (v: Vec<u8>)
    ensures
        v@.len() == n,
        forall|k: int| 0 <= k < n ==> v@[k] == 0,
{
    let mut v: Vec<u8> = Vec::new();
    let mut k: usize = 0;
    while k < n
        invariant
            k <= n,
            v@.len() == k,
            forall|idx: int| 0 <= idx < k ==> v@[idx] == 0,
        decreases n - k,
    {
        v.push(0);
        k = k + 1;
    }
    v
}

/// A vector of `n` zero 16-bit words.
fn zero_words(n: usize) -> (v: Vec<u16>)
    ensures
        v@.len() == n,
        forall|k: int| 0 <= k < n ==> v@[k] == 0,
{
    let mut v: Vec<u16> = Vec::new();
    let mut k: usize = 0;
    while k < n
        invariant
            k <= n,
            v@.len() == k,
            forall|idx: int| 0 <= idx < k ==> v@[idx] == 0,
        decreases n - k,
    {
        v.push(0);
        k = k + 1;
    }
    v
}

/// The font table as bytes in memory order.
fn font_set() -> (v: Vec<u8>)
    ensures
        v@ == font_seq(),
{
    let v: Vec<u8> = vec![
        0xF0, 0x90, 0x90, 0x90, 0xF0, 0x20, 0x60, 0x20, 0x20, 0x70, 0xF0, 0x10, 0xF0, 0x80, 0xF0,
        0xF0, 0x10, 0xF0, 0x10, 0xF0, 0x90, 0x90, 0xF0, 0x10, 0x10, 0xF0, 0x80, 0xF0, 0x10, 0xF0,
        0xF0, 0x80, 0xF0, 0x90, 0xF0, 0xF0, 0x10, 0x20, 0x40, 0x40, 0xF0, 0x90, 0xF0, 0x90, 0xF0,
        0xF0, 0x90, 0xF0, 0x10, 0xF0, 0xF0, 0x90, 0xF0, 0x90, 0x90, 0xE0, 0x90, 0xE0, 0x90, 0xE0,
        0xF0, 0x80, 0x80, 0x80, 0xF0, 0xE0, 0x90, 0x90, 0x90, 0xE0, 0xF0, 0x80, 0xF0, 0x80, 0xF0,
        0xF0, 0x80, 0xF0, 0x80, 0x80,
    ];
    proof {
        assert(v@ =~= font_seq());
    }
    v
}

} // verus!
