//! The CHIP-8 machine itself: memory, register file, call stack, timers,
//! keypad latch and the fetch-decode-execute engine. The whole instruction
//! set is given a mathematical semantics, `spec_step`, and the executable
//! `step` is proved to implement it.
//!
//! Choices this machine documents, where implementations have diverged
//! historically:
//! - 8XY6 and 8XYE shift Vx itself and ignore Vy. A SHR followed by a
//!   SHL therefore does not in general restore Vx, and VF holds only the
//!   bit the second shift pushed out: that is by design.
//! - FX55 and FX65 leave I unchanged.
//! - BNNN jumps to NNN plus V0, masked to twelve bits.
//! - The call stack holds sixteen return addresses.
//! - A fetch with PC at the last byte of memory is a no-op.
//! - Sprites wrap at both display edges; address arithmetic is reduced
//!   modulo 4096, so no access ever leaves the 4 KiB array.

use vstd::prelude::*;

verus! {

use crate::font::{font_seq, font_data};
use crate::framebuffer::{Framebuffer, spec_blit, spec_collision, blank_screen};
use crate::{spec_wrap_addr, wrap_addr};

/// The two faults that stop the machine.
#[derive(Clone, Copy, Debug, PartialEq, Eq, Structural)]
pub enum VmError {
    /// CALL with sixteen return addresses already stacked.
    StackOverflow,
    /// RET with no return address stacked.
    StackUnderflow,
}

/// Mathematical state of the machine.
#[verifier::ext_equal]
pub ghost struct ChipView {
    /// The 4096 memory bytes.
    pub mem: Seq<u8>,
    /// V0 through VF.
    pub regs: Seq<u8>,
    /// Program counter.
    pub pc: u16,
    /// Address register I.
    pub i: u16,
    /// Delay timer.
    pub dt: u8,
    /// Sound timer.
    pub st: u8,
    /// Return addresses, most recent last.
    pub stack: Seq<u16>,
    /// The 64 x 32 pixel grid, row-major.
    pub screen: Seq<bool>,
    /// Which of the sixteen keys are held down.
    pub keys: Seq<bool>,
    /// Whether FX0A has parked the processor.
    pub waiting: bool,
    /// The register that will receive the awaited key.
    pub wait_reg: u8,
}

impl ChipView {
    /// Structural invariant of every reachable state.
    pub open spec fn wf(self) -> bool {
        &&& self.mem.len() == 4096
        &&& self.regs.len() == 16
        &&& self.screen.len() == 2048
        &&& self.keys.len() == 16
        &&& self.pc < 4096
        &&& self.i < 4096
        &&& self.stack.len() <= 16
        &&& (forall|k: int| 0 <= k < self.stack.len() ==> self.stack[k] < 4096)
        &&& self.wait_reg < 16
    }
}

/// What one instruction does: the next state, whether the display needs
/// presenting again, and the fault if one occurred.
#[verifier::ext_equal]
pub ghost struct StepOut {
    /// Machine state after the instruction.
    pub post: ChipView,
    /// True after CLS and DRW, the opcodes that change the display.
    pub redraw: bool,
    /// The fault, if the instruction was a faulting CALL or RET.
    pub err: Option<VmError>,
}

/// X field of an opcode: bits 8..12.
pub open spec fn op_x(op: u16) -> int {
    (op as int / 256) % 16
}

/// Y field of an opcode: bits 4..8.
pub open spec fn op_y(op: u16) -> int {
    (op as int / 16) % 16
}

/// Low nibble of an opcode.
pub open spec fn op_n(op: u16) -> int {
    op as int % 16
}

/// Low byte of an opcode.
pub open spec fn op_nn(op: u16) -> u8 {
    (op as int % 256) as u8
}

/// Low twelve bits of an opcode: an address.
pub open spec fn op_nnn(op: u16) -> u16 {
    (op as int % 4096) as u16
}

/// The big-endian instruction word at PC.
pub open spec fn fetched_op(s: ChipView) -> u16
    recommends
        s.wf(),
        s.pc < 4095,
{
    (s.mem[s.pc as int] as int * 256 + s.mem[s.pc as int + 1] as int) as u16
}

/// State with the program counter moved past one more instruction,
/// reduced to the address space.
pub open spec fn skip_next(s: ChipView) -> ChipView {
    ChipView { pc: spec_wrap_addr(s.pc as int + 2) as u16, ..s }
}

/// A step that neither draws nor faults.
pub open spec fn quiet(post: ChipView) -> StepOut {
    StepOut { post, redraw: false, err: None }
}

/// Memory after FX55 has copied `cnt` registers to I onward, each address
/// reduced to the 4 KiB space.
pub open spec fn stored_mem(mem: Seq<u8>, regs: Seq<u8>, i: int, cnt: int) -> Seq<u8>
    recommends
        mem.len() == 4096,
        regs.len() == 16,
        0 <= i < 4096,
        0 <= cnt <= 16,
{
    Seq::new(
        4096,
        |a: int|
            {
                let k: int = if a >= i {
                    a - i
                } else {
                    a + 4096 - i
                };
                if k < cnt {
                    regs[k]
                } else {
                    mem[a]
                }
            },
    )
}

/// Registers after FX65 has filled the first `cnt` of them from I onward.
pub open spec fn loaded_regs(regs: Seq<u8>, mem: Seq<u8>, i: int, cnt: int) -> Seq<u8>
    recommends
        mem.len() == 4096,
        regs.len() == 16,
        0 <= i < 4096,
        0 <= cnt <= 16,
{
    Seq::new(
        16,
        |k: int|
            if k < cnt {
                mem[spec_wrap_addr(i + k)]
            } else {
                regs[k]
            },
    )
}

/// The sprite rows DRW reads: `n` bytes from I onward, addresses reduced
/// to the 4 KiB space.
pub open spec fn sprite_rows(s: ChipView, n: int) -> Seq<u8>
    recommends
        s.wf(),
        0 <= n <= 15,
{
    Seq::new(n as nat, |r: int| s.mem[spec_wrap_addr(s.i as int + r)])
}

/// Effect of the already-fetched opcode `op` on state `s` (the program
/// counter in `s` has moved past the opcode). `rand` is the byte that
/// CXNN masks; every other opcode ignores it.
pub open spec fn spec_execute(s: ChipView, op: u16, rand: u8) -> StepOut
    recommends
        s.wf(),
{
    let x: int = op_x(op);
    let y: int = op_y(op);
    let n: int = op_n(op);
    let nn: u8 = op_nn(op);
    let nnn: u16 = op_nnn(op);
    let vx: u8 = s.regs[x];
    let vy: u8 = s.regs[y];
    let hi: int = op as int / 4096;
    if hi == 0 {
        if op == 0x00E0 {
            // CLS
            StepOut { post: ChipView { screen: blank_screen(), ..s }, redraw: true, err: None }
        } else if op == 0x00EE {
            // RET
            if s.stack.len() == 0 {
                StepOut { post: s, redraw: false, err: Some(VmError::StackUnderflow) }
            } else {
                quiet(ChipView { pc: s.stack.last(), stack: s.stack.drop_last(), ..s })
            }
        } else {
            // 0NNN and anything else starting 0 is ignored.
            quiet(s)
        }
    } else if hi == 1 {
        // JP NNN
        quiet(ChipView { pc: nnn, ..s })
    } else if hi == 2 {
        // CALL NNN
        if s.stack.len() >= 16 {
            StepOut { post: s, redraw: false, err: Some(VmError::StackOverflow) }
        } else {
            quiet(ChipView { stack: s.stack.push(s.pc), pc: nnn, ..s })
        }
    } else if hi == 3 {
        // SE Vx, NN
        if vx == nn {
            quiet(skip_next(s))
        } else {
            quiet(s)
        }
    } else if hi == 4 {
        // SNE Vx, NN
        if vx != nn {
            quiet(skip_next(s))
        } else {
            quiet(s)
        }
    } else if hi == 5 {
        // SE Vx, Vy
        if n == 0 && vx == vy {
            quiet(skip_next(s))
        } else {
            quiet(s)
        }
    } else if hi == 6 {
        // LD Vx, NN
        quiet(ChipView { regs: s.regs.update(x, nn), ..s })
    } else if hi == 7 {
        // ADD Vx, NN without touching VF
        quiet(ChipView { regs: s.regs.update(x, ((vx + nn) % 256) as u8), ..s })
    } else if hi == 8 {
        if n == 0 {
            quiet(ChipView { regs: s.regs.update(x, vy), ..s })
        } else if n == 1 {
            quiet(ChipView { regs: s.regs.update(x, vx | vy), ..s })
        } else if n == 2 {
            quiet(ChipView { regs: s.regs.update(x, vx & vy), ..s })
        } else if n == 3 {
            quiet(ChipView { regs: s.regs.update(x, vx ^ vy), ..s })
        } else if n == 4 {
            // ADD with carry: the flag is written after the sum.
            let flag: u8 = if vx + vy > 255 {
                1
            } else {
                0
            };
            quiet(
                ChipView { regs: s.regs.update(x, ((vx + vy) % 256) as u8).update(15, flag), ..s },
            )
        } else if n == 5 {
            // SUB with borrow flag, written after the difference.
            let flag: u8 = if vx >= vy {
                1
            } else {
                0
            };
            quiet(
                ChipView {
                    regs: s.regs.update(x, ((vx - vy + 256) % 256) as u8).update(15, flag),
                    ..s
                },
            )
        } else if n == 6 {
            // SHR Vx: flag first, then the shifted value.
            quiet(ChipView { regs: s.regs.update(15, vx & 1).update(x, vx >> 1), ..s })
        } else if n == 7 {
            // SUBN: Vy minus Vx, borrow flag written after.
            let flag: u8 = if vy >= vx {
                1
            } else {
                0
            };
            quiet(
                ChipView {
                    regs: s.regs.update(x, ((vy - vx + 256) % 256) as u8).update(15, flag),
                    ..s
                },
            )
        } else if n == 14 {
            // SHL Vx: flag first, then the shifted value.
            quiet(ChipView { regs: s.regs.update(15, vx >> 7).update(x, vx << 1), ..s })
        } else {
            quiet(s)
        }
    } else if hi == 9 {
        // SNE Vx, Vy
        if n == 0 && vx != vy {
            quiet(skip_next(s))
        } else {
            quiet(s)
        }
    } else if hi == 10 {
        // LD I, NNN
        quiet(ChipView { i: nnn, ..s })
    } else if hi == 11 {
        // JP V0, NNN
        quiet(ChipView { pc: spec_wrap_addr(nnn + s.regs[0]) as u16, ..s })
    } else if hi == 12 {
        // RND Vx, NN
        quiet(ChipView { regs: s.regs.update(x, rand & nn), ..s })
    } else if hi == 13 {
        // DRW Vx, Vy, N
        let sprite = sprite_rows(s, n);
        let x0: int = vx as int % 64;
        let y0: int = vy as int % 32;
        let hit = spec_collision(s.screen, sprite, x0, y0);
        let flag: u8 = if hit {
            1
        } else {
            0
        };
        StepOut {
            post: ChipView {
                screen: spec_blit(s.screen, sprite, x0, y0),
                regs: s.regs.update(15, flag),
                ..s
            },
            redraw: true,
            err: None,
        }
    } else if hi == 14 {
        if nn == 0x9E {
            // SKP Vx
            if s.keys[vx as int % 16] {
                quiet(skip_next(s))
            } else {
                quiet(s)
            }
        } else if nn == 0xA1 {
            // SKNP Vx
            if !s.keys[vx as int % 16] {
                quiet(skip_next(s))
            } else {
                quiet(s)
            }
        } else {
            quiet(s)
        }
    } else {
        if nn == 0x07 {
            // LD Vx, DT
            quiet(ChipView { regs: s.regs.update(x, s.dt), ..s })
        } else if nn == 0x0A {
            // LD Vx, K: park until the next key goes down.
            quiet(ChipView { waiting: true, wait_reg: x as u8, ..s })
        } else if nn == 0x15 {
            quiet(ChipView { dt: vx, ..s })
        } else if nn == 0x18 {
            quiet(ChipView { st: vx, ..s })
        } else if nn == 0x1E {
            // ADD I, Vx, reduced to the address space.
            quiet(ChipView { i: spec_wrap_addr(s.i + vx) as u16, ..s })
        } else if nn == 0x29 {
            // LD F, Vx: the glyph of the low nibble of Vx.
            quiet(ChipView { i: ((vx as int % 16) * 5) as u16, ..s })
        } else if nn == 0x33 {
            // LD B, Vx: hundreds, tens, ones.
            let a0: int = spec_wrap_addr(s.i as int);
            let a1: int = spec_wrap_addr(s.i as int + 1);
            let a2: int = spec_wrap_addr(s.i as int + 2);
            quiet(
                ChipView {
                    mem: s.mem.update(a0, (vx as int / 100) as u8).update(
                        a1,
                        ((vx as int % 100) / 10) as u8,
                    ).update(a2, (vx as int % 10) as u8),
                    ..s
                },
            )
        } else if nn == 0x55 {
            // LD [I], Vx
            quiet(ChipView { mem: stored_mem(s.mem, s.regs, s.i as int, x + 1), ..s })
        } else if nn == 0x65 {
            // LD Vx, [I]
            quiet(ChipView { regs: loaded_regs(s.regs, s.mem, s.i as int, x + 1), ..s })
        } else {
            quiet(s)
        }
    }
}

/// One tick of the engine: fetch the word at PC, move PC past it, execute.
/// With PC on the last byte nothing can be fetched and nothing happens.
pub open spec fn spec_step(s: ChipView, rand: u8) -> StepOut
    recommends
        s.wf(),
{
    if s.pc >= 4095 {
        quiet(s)
    } else {
        spec_execute(skip_next(s), fetched_op(s), rand)
    }
}

/// What `step` promises: the machine moved to the state `spec_step` names,
/// and the returned value reports the same redraw flag or fault.
pub open spec fn step_ensures(
    pre: ChipView,
    post: ChipView,
    rand: u8,
    r: Result<bool, VmError>,
) -> bool {
    let o = spec_step(pre, rand);
    &&& post == o.post
    &&& (match r {
        Ok(redraw) => o.err is None && redraw == o.redraw,
        Err(e) => o.err == Some(e),
    })
}

/// The state every machine starts in: font at the bottom of memory,
/// everything else zero, PC at the program start.
pub open spec fn initial_state() -> ChipView {
    ChipView {
        mem: Seq::new(
            4096,
            |a: int|
                if a < 80 {
                    font_seq()[a]
                } else {
                    0u8
                },
        ),
        regs: Seq::new(16, |k: int| 0u8),
        pc: 0x200,
        i: 0,
        dt: 0,
        st: 0,
        stack: Seq::empty(),
        screen: blank_screen(),
        keys: Seq::new(16, |k: int| false),
        waiting: false,
        wait_reg: 0,
    }
}

/// How many ROM bytes fit: everything from the program start to the top.
pub open spec fn rom_span(rom: Seq<u8>) -> int {
    if rom.len() <= 3584 {
        rom.len() as int
    } else {
        3584
    }
}

/// Memory after a ROM is placed at the program start; overlong input is
/// cut at the top of memory.
pub open spec fn spec_load(s: ChipView, rom: Seq<u8>) -> ChipView {
    ChipView {
        mem: Seq::new(
            4096,
            |a: int|
                if 0x200 <= a < 0x200 + rom_span(rom) {
                    rom[a - 0x200]
                } else {
                    s.mem[a]
                },
        ),
        ..s
    }
}

/// One 60 Hz-style tick of both timers: each counts down to zero and
/// stays there.
pub open spec fn spec_tick_timers(s: ChipView) -> ChipView {
    ChipView {
        dt: if s.dt > 0 {
            (s.dt - 1) as u8
        } else {
            0
        },
        st: if s.st > 0 {
            (s.st - 1) as u8
        } else {
            0
        },
        ..s
    }
}

/// Effect of one normalized key event. A key going down while FX0A has
/// the processor parked lands in the awaited register and unparks it.
pub open spec fn spec_key_event(s: ChipView, key: u8, down: bool) -> ChipView {
    let keys2 = s.keys.update(key as int, down);
    if down && s.waiting {
        ChipView { keys: keys2, regs: s.regs.update(s.wait_reg as int, key), waiting: false, ..s }
    } else {
        ChipView { keys: keys2, ..s }
    }
}

/// One normalized input event: a logical key going down or up.
#[derive(Clone, Copy, Debug, PartialEq, Eq, Structural)]
pub struct KeyEvent {
    /// Logical key index, 0..16.
    pub key: u8,
    /// True when the key went down, false when it came up.
    pub down: bool,
}

/// What one iteration of the run loop asks of the host.
#[derive(Clone, Copy, Debug, PartialEq, Eq, Structural)]
pub struct TickEffect {
    /// Sound the tone during this tick: the sound timer was running.
    pub beep: bool,
    /// Present the framebuffer again: the instruction changed it.
    pub redraw: bool,
}

/// State after a batch of key events, applied first to last.
pub open spec fn spec_apply_events(s: ChipView, evs: Seq<KeyEvent>) -> ChipView
    decreases evs.len(),
{
    if evs.len() == 0 {
        s
    } else {
        spec_key_event(spec_apply_events(s, evs.drop_last()), evs.last().key, evs.last().down)
    }
}

/// The machine: all state the instruction set can reach.
pub struct Chip {
    memory: Vec<u8>,
    registers: Vec<u8>,
    pc: u16,
    i: u16,
    dt: u8,
    st: u8,
    stack: Vec<u16>,
    screen: Framebuffer,
    keypad: Vec<bool>,
    waiting_for_key: bool,
    waiting_key_register: u8,
}

impl View for Chip {
    type V = ChipView;

    closed spec fn view(&self) -> ChipView {
        ChipView {
            mem: self.memory@,
            regs: self.registers@,
            pc: self.pc,
            i: self.i,
            dt: self.dt,
            st: self.st,
            stack: self.stack@,
            screen: self.screen@,
            keys: self.keypad@,
            waiting: self.waiting_for_key,
            wait_reg: self.waiting_key_register,
        }
    }
}

impl Chip {
    /// The structural invariant, stated over the view.
    pub open spec fn wf(&self) -> bool {
        self@.wf()
    }

    /// A fresh machine in `initial_state`.
    #[verifier::loop_isolation(false)]
    pub fn new() -> (c: Chip)
        ensures
            c.wf(),
            c@ == initial_state(),
    {
        let mut memory = font_data();
        while memory.len() < 4096
            invariant
                80 <= memory@.len() <= 4096,
                forall|a: int|
                    0 <= a < memory@.len() ==> memory@[a] == (if a < 80 {
                        font_seq()[a]
                    } else {
                        0u8
                    }),
            decreases 4096 - memory@.len(),
        {
            memory.push(0);
        }
        let mut registers: Vec<u8> = Vec::new();
        while registers.len() < 16
            invariant
                registers@.len() <= 16,
                forall|k: int| 0 <= k < registers@.len() ==> registers@[k] == 0u8,
            decreases 16 - registers@.len(),
        {
            registers.push(0);
        }
        let mut keypad: Vec<bool> = Vec::new();
        while keypad.len() < 16
            invariant
                keypad@.len() <= 16,
                forall|k: int| 0 <= k < keypad@.len() ==> !keypad@[k],
            decreases 16 - keypad@.len(),
        {
            keypad.push(false);
        }
        let c = Chip {
            memory,
            registers,
            pc: 0x200,
            i: 0,
            dt: 0,
            st: 0,
            stack: Vec::new(),
            screen: Framebuffer::new(),
            keypad,
            waiting_for_key: false,
            waiting_key_register: 0,
        };
        proof {
            assert(c@.mem =~= initial_state().mem);
            assert(c@.regs =~= initial_state().regs);
            assert(c@.keys =~= initial_state().keys);
            assert(c@.stack =~= initial_state().stack);
            assert(c@ =~= initial_state());
        }
        c
    }

    /// Place a ROM image at the program start. Bytes past the top of
    /// memory are dropped, as a reader filling a 3584-byte buffer would.
    #[verifier::loop_isolation(false)]
    pub fn load(&mut self, rom: &Vec<u8>)
        requires
            old(self).wf(),
        ensures
            final(self).wf(),
            final(self)@ == spec_load(old(self)@, rom@),
    {
        let count: usize = if rom.len() <= 3584 {
            rom.len()
        } else {
            3584
        };
        let mut k: usize = 0;
        while k < count
            invariant
                k <= count,
                count == rom_span(rom@),
                self.memory@.len() == 4096,
                forall|a: int|
                    0 <= a < 4096 ==> self.memory@[a] == (if 0x200 <= a < 0x200 + k {
                        rom@[a - 0x200]
                    } else {
                        old(self)@.mem[a]
                    }),
                self.registers@ == old(self)@.regs,
                self.pc == old(self)@.pc,
                self.i == old(self)@.i,
                self.dt == old(self)@.dt,
                self.st == old(self)@.st,
                self.stack@ == old(self)@.stack,
                self.screen@ == old(self)@.screen,
                self.keypad@ == old(self)@.keys,
                self.waiting_for_key == old(self)@.waiting,
                self.waiting_key_register == old(self)@.wait_reg,
            decreases count - k,
        {
            self.memory.set(0x200 + k, rom[k]);
            k = k + 1;
        }
        proof {
            assert(self@.mem =~= spec_load(old(self)@, rom@).mem);
            assert(self@ =~= spec_load(old(self)@, rom@));
        }
    }

    /// Count both timers down one tick and say whether the beep should
    /// sound during this tick (the sound timer was running).
    pub fn tick_timers(&mut self) -> (beep: bool)
        requires
            old(self).wf(),
        ensures
            final(self).wf(),
            final(self)@ == spec_tick_timers(old(self)@),
            beep == (old(self)@.st > 0),
    {
        if self.dt > 0 {
            self.dt = self.dt - 1;
        }
        let beep = self.st > 0;
        if beep {
            self.st = self.st - 1;
        }
        beep
    }

    /// Ingest one normalized key event: key index 0..16, down or up.
    pub fn key_event(&mut self, key: u8, down: bool)
        requires
            old(self).wf(),
            key < 16,
        ensures
            final(self).wf(),
            final(self)@ == spec_key_event(old(self)@, key, down),
    {
        self.keypad.set(key as usize, down);
        if down && self.waiting_for_key {
            self.registers.set(self.waiting_key_register as usize, key);
            self.waiting_for_key = false;
        }
    }

    /// Whether FX0A has parked the processor; while true, `step` must not
    /// be called and only timers and key events run.
    pub fn is_waiting(&self) -> (w: bool)
        requires
            self.wf(),
        ensures
            w == self@.waiting,
    {
        self.waiting_for_key
    }

    /// Fetch, decode and execute one instruction, with `rand` as the byte
    /// CXNN masks. Returns whether the display changed, or the fault.
    #[verifier::loop_isolation(false)]
    #[verifier::rlimit(60)]
    pub fn step(&mut self, rand: u8) -> (r: Result<bool, VmError>)
        requires
            old(self).wf(),
        ensures
            final(self).wf(),
            step_ensures(old(self)@, final(self)@, rand, r),
    {
        if self.pc >= 4095 {
            return Ok(false);
        }
        let high = self.memory[self.pc as usize];
        let low = self.memory[self.pc as usize + 1];
        let op: u16 = (high as u16) * 256 + (low as u16);
        self.pc = wrap_addr(self.pc + 2);
        proof {
            assert(op == fetched_op(old(self)@));
            assert(self@ =~= skip_next(old(self)@));
        }
        let ghost s1 = self@;
        let ghost target = spec_execute(s1, op, rand);
        let x = ((op / 256) % 16) as usize;
        let y = ((op / 16) % 16) as usize;
        let n = (op % 16) as usize;
        let nn = (op % 256) as u8;
        let nnn = op % 4096;
        let vx = self.registers[x];
        let vy = self.registers[y];
        let hi = op / 4096;
        if hi == 0 {
            if op == 0x00E0 {
                self.screen.clear();
                proof {
                    assert(self@ =~= target.post);
                }
                Ok(true)
            } else if op == 0x00EE {
                match self.stack.pop() {
                    Some(address) => {
                        self.pc = address;
                        proof {
                            assert(self@ =~= target.post);
                        }
                        Ok(false)
                    },
                    None => Err(VmError::StackUnderflow),
                }
            } else {
                Ok(false)
            }
        } else if hi == 1 {
            self.pc = nnn;
            Ok(false)
        } else if hi == 2 {
            if self.stack.len() >= 16 {
                Err(VmError::StackOverflow)
            } else {
                self.stack.push(self.pc);
                self.pc = nnn;
                proof {
                    assert(self@ =~= target.post);
                }
                Ok(false)
            }
        } else if hi == 3 {
            if vx == nn {
                self.pc = wrap_addr(self.pc + 2);
                proof {
                    assert(self@ =~= target.post);
                }
            }
            Ok(false)
        } else if hi == 4 {
            if vx != nn {
                self.pc = wrap_addr(self.pc + 2);
                proof {
                    assert(self@ =~= target.post);
                }
            }
            Ok(false)
        } else if hi == 5 {
            if n == 0 && vx == vy {
                self.pc = wrap_addr(self.pc + 2);
                proof {
                    assert(self@ =~= target.post);
                }
            }
            Ok(false)
        } else if hi == 6 {
            self.registers.set(x, nn);
            proof {
                assert(self@ =~= target.post);
            }
            Ok(false)
        } else if hi == 7 {
            let sum: u16 = vx as u16 + nn as u16;
            self.registers.set(x, (sum % 256) as u8);
            proof {
                assert(self@ =~= target.post);
            }
            Ok(false)
        } else if hi == 8 {
            if n == 0 {
                self.registers.set(x, vy);
            } else if n == 1 {
                self.registers.set(x, vx | vy);
            } else if n == 2 {
                self.registers.set(x, vx & vy);
            } else if n == 3 {
                self.registers.set(x, vx ^ vy);
            } else if n == 4 {
                let sum: u16 = vx as u16 + vy as u16;
                self.registers.set(x, (sum % 256) as u8);
                self.registers.set(15, if sum > 255 {
                    1
                } else {
                    0
                });
            } else if n == 5 {
                let diff: u16 = vx as u16 + 256 - vy as u16;
                self.registers.set(x, (diff % 256) as u8);
                self.registers.set(15, if vx >= vy {
                    1
                } else {
                    0
                });
            } else if n == 6 {
                self.registers.set(15, vx & 1);
                self.registers.set(x, vx >> 1);
            } else if n == 7 {
                let diff: u16 = vy as u16 + 256 - vx as u16;
                self.registers.set(x, (diff % 256) as u8);
                self.registers.set(15, if vy >= vx {
                    1
                } else {
                    0
                });
            } else if n == 14 {
                self.registers.set(15, vx >> 7);
                self.registers.set(x, vx << 1);
            }
            proof {
                assert(self@ =~= target.post);
            }
            Ok(false)
        } else if hi == 9 {
            if n == 0 && vx != vy {
                self.pc = wrap_addr(self.pc + 2);
                proof {
                    assert(self@ =~= target.post);
                }
            }
            Ok(false)
        } else if hi == 10 {
            self.i = nnn;
            Ok(false)
        } else if hi == 11 {
            self.pc = wrap_addr(nnn + self.registers[0] as u16);
            proof {
                assert(self@ =~= target.post);
            }
            Ok(false)
        } else if hi == 12 {
            self.registers.set(x, rand & nn);
            proof {
                assert(self@ =~= target.post);
            }
            Ok(false)
        } else if hi == 13 {
            let x0 = vx % 64;
            let y0 = vy % 32;
            let mut sprite: Vec<u8> = Vec::new();
            let mut k: usize = 0;
            while k < n
                invariant
                    k <= n,
                    sprite@.len() == k,
                    forall|r: int|
                        0 <= r < k ==> sprite@[r] == s1.mem[spec_wrap_addr(s1.i as int + r)],
                    self@ == s1,
                decreases n - k,
            {
                sprite.push(self.memory[wrap_addr(self.i + k as u16) as usize]);
                k = k + 1;
            }
            proof {
                assert(sprite@ =~= sprite_rows(s1, n as int));
            }
            let hit = self.screen.blit(&sprite, x0, y0);
            self.registers.set(15, if hit {
                1
            } else {
                0
            });
            proof {
                assert(self@ =~= target.post);
            }
            Ok(true)
        } else if hi == 14 {
            if nn == 0x9E {
                if self.keypad[(vx % 16) as usize] {
                    self.pc = wrap_addr(self.pc + 2);
                    proof {
                        assert(self@ =~= target.post);
                    }
                }
            } else if nn == 0xA1 {
                if !self.keypad[(vx % 16) as usize] {
                    self.pc = wrap_addr(self.pc + 2);
                    proof {
                        assert(self@ =~= target.post);
                    }
                }
            }
            Ok(false)
        } else {
            if nn == 0x07 {
                self.registers.set(x, self.dt);
            } else if nn == 0x0A {
                self.waiting_for_key = true;
                self.waiting_key_register = x as u8;
            } else if nn == 0x15 {
                self.dt = vx;
            } else if nn == 0x18 {
                self.st = vx;
            } else if nn == 0x1E {
                self.i = wrap_addr(self.i + vx as u16);
            } else if nn == 0x29 {
                self.i = (vx % 16) as u16 * 5;
            } else if nn == 0x33 {
                let a0 = wrap_addr(self.i);
                let a1 = wrap_addr(self.i + 1);
                let a2 = wrap_addr(self.i + 2);
                self.memory.set(a0 as usize, vx / 100);
                self.memory.set(a1 as usize, (vx % 100) / 10);
                self.memory.set(a2 as usize, vx % 10);
                proof {
                    assert(self@ =~= target.post);
                }
            } else if nn == 0x55 {
                let ghost mem0 = self.memory@;
                let mut k: usize = 0;
                while k < x + 1
                    invariant
                        k <= x + 1,
                        self.memory@ == stored_mem(mem0, s1.regs, s1.i as int, k as int),
                        self@ == (ChipView { mem: self.memory@, ..s1 }),
                    decreases x + 1 - k,
                {
                    proof {
                        lemma_stored_mem_step(mem0, s1.regs, s1.i as int, k as int);
                    }
                    self.memory.set(wrap_addr(self.i + k as u16) as usize, self.registers[k]);
                    k = k + 1;
                }
                proof {
                    assert(self@ =~= target.post);
                }
            } else if nn == 0x65 {
                let ghost regs0 = self.registers@;
                let mut k: usize = 0;
                while k < x + 1
                    invariant
                        k <= x + 1,
                        self.registers@ == loaded_regs(regs0, s1.mem, s1.i as int, k as int),
                        self@ == (ChipView { regs: self.registers@, ..s1 }),
                    decreases x + 1 - k,
                {
                    self.registers.set(k, self.memory[wrap_addr(self.i + k as u16) as usize]);
                    proof {
                        assert(self.registers@ =~= loaded_regs(
                            regs0,
                            s1.mem,
                            s1.i as int,
                            k as int + 1,
                        ));
                    }
                    k = k + 1;
                }
                proof {
                    assert(self@ =~= target.post);
                }
            }
            Ok(false)
        }
    }
}

impl Chip {
    /// One iteration of the run loop, in its fixed order: timers count
    /// down, the tick's input events land, and then, unless FX0A has the
    /// processor parked, one instruction runs with `rand` as the byte
    /// CXNN masks. A key going down here can satisfy a key-wait, but
    /// never the FX0A executed in the same tick: events land first.
    #[verifier::loop_isolation(false)]
    pub fn tick(&mut self, events: &Vec<KeyEvent>, rand: u8) -> (r: Result<TickEffect, VmError>)
        requires
            old(self).wf(),
            forall|e: int| 0 <= e < events@.len() ==> (#[trigger] events@[e]).key < 16,
        ensures
            final(self).wf(),
            ({
                let after = spec_apply_events(spec_tick_timers(old(self)@), events@);
                let beep = old(self)@.st > 0;
                if after.waiting {
                    &&& final(self)@ == after
                    &&& r == Ok::<TickEffect, VmError>(TickEffect { beep, redraw: false })
                } else {
                    let o = spec_step(after, rand);
                    &&& final(self)@ == o.post
                    &&& (match r {
                        Ok(t) => o.err is None && t == (TickEffect { beep, redraw: o.redraw }),
                        Err(e) => o.err == Some(e),
                    })
                }
            }),
    {
        let beep = self.tick_timers();
        let ghost s0 = self@;
        let mut idx: usize = 0;
        while idx < events.len()
            invariant
                idx <= events@.len(),
                self.wf(),
                self@ == spec_apply_events(s0, events@.take(idx as int)),
            decreases events@.len() - idx,
        {
            let ev = events[idx];
            self.key_event(ev.key, ev.down);
            proof {
                assert(events@.take(idx as int + 1).drop_last() =~= events@.take(idx as int));
                assert(events@.take(idx as int + 1).last() == ev);
            }
            idx = idx + 1;
        }
        proof {
            assert(events@.take(events@.len() as int) =~= events@);
        }
        if self.is_waiting() {
            return Ok(TickEffect { beep, redraw: false });
        }
        match self.step(rand) {
            Ok(redraw) => Ok(TickEffect { beep, redraw }),
            Err(e) => Err(e),
        }
    }

    /// Fetch, decode and execute one instruction, drawing the byte that
    /// CXNN masks from the host's random source; everything else is
    /// exactly `step` on that byte.
    pub fn execute_instruction(&mut self) -> (r: Result<bool, VmError>)
        requires
            old(self).wf(),
        ensures
            final(self).wf(),
            exists|b: u8| step_ensures(old(self)@, final(self)@, b, r),
    {
        let b = crate::rng::random_byte();
        let r = self.step(b);
        proof {
            assert(step_ensures(old(self)@, self@, b, r));
        }
        r
    }

    /// Value of register Vk.
    pub fn reg(&self, k: u8) -> (v: u8)
        requires
            self.wf(),
            k < 16,
        ensures
            v == self@.regs[k as int],
    {
        self.registers[k as usize]
    }

    /// The program counter.
    pub fn pc(&self) -> (v: u16)
        ensures
            v == self@.pc,
    {
        self.pc
    }

    /// The address register I.
    pub fn index_register(&self) -> (v: u16)
        ensures
            v == self@.i,
    {
        self.i
    }

    /// The delay timer.
    pub fn delay_timer(&self) -> (v: u8)
        ensures
            v == self@.dt,
    {
        self.dt
    }

    /// The sound timer.
    pub fn sound_timer(&self) -> (v: u8)
        ensures
            v == self@.st,
    {
        self.st
    }

    /// How many return addresses are stacked.
    pub fn stack_depth(&self) -> (d: usize)
        ensures
            d == self@.stack.len(),
    {
        self.stack.len()
    }

    /// The memory byte at `addr`.
    pub fn mem_at(&self, addr: u16) -> (b: u8)
        requires
            self.wf(),
            addr < 4096,
        ensures
            b == self@.mem[addr as int],
    {
        self.memory[addr as usize]
    }

    /// Whether the pixel at column `x`, row `y` is lit.
    pub fn pixel(&self, x: usize, y: usize) -> (lit: bool)
        requires
            self.wf(),
            x < 64,
            y < 32,
        ensures
            lit == self@.screen[y * 64 + x],
    {
        self.screen.get(x, y)
    }

    /// Whether key `key` is currently held down.
    pub fn key_down(&self, key: u8) -> (down: bool)
        requires
            self.wf(),
            key < 16,
        ensures
            down == self@.keys[key as int],
    {
        self.keypad[key as usize]
    }

    /// The display as RGB24 bytes, three per pixel, every channel 255 on
    /// a lit pixel and 0 on a dark one: the form a presentation layer
    /// uploads into a streaming texture.
    #[verifier::loop_isolation(false)]
    pub fn screen_rgb24(&self) -> (buf: Vec<u8>)
        requires
            self.wf(),
        ensures
            buf@.len() == 6144,
            forall|j: int|
                0 <= j < 6144 ==> buf@[j] == (if self@.screen[j / 3] {
                    255u8
                } else {
                    0u8
                }),
    {
        let mut buf: Vec<u8> = Vec::new();
        let mut p: usize = 0;
        while p < 2048
            invariant
                p <= 2048,
                buf@.len() == 3 * p,
                forall|j: int|
                    0 <= j < 3 * p ==> buf@[j] == (if self@.screen[j / 3] {
                        255u8
                    } else {
                        0u8
                    }),
            decreases 2048 - p,
        {
            let lit = self.screen.get(p % 64, p / 64);
            proof {
                assert((p / 64) * 64 + p % 64 == p as int);
            }
            let v: u8 = if lit {
                255
            } else {
                0
            };
            buf.push(v);
            buf.push(v);
            buf.push(v);
            p = p + 1;
        }
        buf
    }
}

/// Copying register `k` to its slot extends the partial FX55 image by one.
proof fn lemma_stored_mem_step(mem: Seq<u8>, regs: Seq<u8>, i: int, k: int)
    requires
        mem.len() == 4096,
        regs.len() == 16,
        0 <= i < 4096,
        0 <= k < 16,
    ensures
        stored_mem(mem, regs, i, k).update(spec_wrap_addr(i + k), regs[k]) =~= stored_mem(
            mem,
            regs,
            i,
            k + 1,
        ),
{
    let lhs = stored_mem(mem, regs, i, k).update(spec_wrap_addr(i + k), regs[k]);
    let rhs = stored_mem(mem, regs, i, k + 1);
    assert forall|a: int| 0 <= a < 4096 implies lhs[a] == rhs[a] by {
        let off: int = if a >= i {
            a - i
        } else {
            a + 4096 - i
        };
        if a == spec_wrap_addr(i + k) {
            assert(off == k);
        } else {
            assert(off != k);
        }
    };
}

} // verus!
