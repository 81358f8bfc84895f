use vstd::prelude::*;

use crate::display::{
    blank, collides, draw_spec, lemma_screen_len, DisplayTrait, Framebuffer, PIXEL_COUNT,
};
use crate::debugger::ShowArgs;
use crate::error::Chip8Error;
use crate::instruction::{decode_instruction, decode_spec, operands_in_range, Instruction};
use crate::keyboard::{any_pressed, lemma_keys_len, lowest_pressed, Keyboard};
use crate::memory::{lemma_memory_len, Memory, GLYPH_ROWS, MEMORY_SIZE, ROM_START};

verus! {

broadcast use lemma_memory_len, lemma_screen_len, lemma_keys_len;

/// Number of general registers `V0..VF`.
pub const REGISTER_COUNT: usize = 16;

/// Depth of the call stack.
pub const STACK_SIZE: usize = 16;

/// Index of the flag register `VF`.
pub const FLAG: usize = 15;

/// Whether the interpreter executes instructions or is stalled on `Fx0A`.
#[derive(Debug, Clone, Copy, PartialEq, Eq, Structural)]
pub enum RunState {
    /// Instructions are fetched and executed.
    Running,
    /// Stalled until a key is pressed, whose code then goes to this register.
    WaitingForKey(u8),
}

/// The mathematical state of the whole machine.
#[verifier::ext_equal]
pub struct Machine {
    /// Registers `V0..VF`.
    pub v: Seq<u8>,
    /// The index register.
    pub i: u16,
    /// The program counter.
    pub pc: u16,
    /// The number of return addresses on the stack.
    pub sp: u8,
    /// The delay timer.
    pub dt: u8,
    /// The sound timer.
    pub st: u8,
    /// The stack slots; those below `sp` are in use.
    pub stack: Seq<u16>,
    /// The memory bytes.
    pub mem: Seq<u8>,
    /// The screen pixels, row by row.
    pub screen: Seq<bool>,
    /// Which keys are pressed.
    pub keys: Seq<bool>,
    /// Running, or waiting for a key.
    pub state: RunState,
}

impl Machine {
    /// Sizes of the parts, the stack pointer within the stack, and a waiting
    /// target that names a register.
    pub open spec fn wf(self) -> bool {
        &&& self.v.len() == REGISTER_COUNT
        &&& self.stack.len() == STACK_SIZE
        &&& self.mem.len() == MEMORY_SIZE
        &&& self.screen.len() == PIXEL_COUNT
        &&& self.keys.len() == 16
        &&& self.sp <= STACK_SIZE
        &&& match self.state {
            RunState::WaitingForKey(x) => x < REGISTER_COUNT,
            RunState::Running => true,
        }
    }
}

/// `pc` advanced by `by` bytes, wrapping at 16 bits.
pub open spec fn pc_plus(pc: u16, by: int) -> u16 {
    ((pc + by) % 0x10000) as u16
}

/// The state after an instruction that only moves on to the next one.
pub open spec fn advance(s: Machine) -> Machine {
    Machine { pc: pc_plus(s.pc, 2), ..s }
}

/// The state after a conditional skip: past the next instruction when
/// `taken`, else to it.
pub open spec fn skip_if(s: Machine, taken: bool) -> Machine {
    Machine {
        pc: if taken {
            pc_plus(s.pc, 4)
        } else {
            pc_plus(s.pc, 2)
        },
        ..s
    }
}

/// Registers after `Vx = value`, then moving on.
pub open spec fn set_reg(s: Machine, x: u8, value: u8) -> Machine {
    advance(Machine { v: s.v.update(x as int, value), ..s })
}

/// Registers after writing the flag first and then `Vx = value`.
pub open spec fn set_flag_then_reg(s: Machine, x: u8, flag: bool, value: u8) -> Machine {
    advance(
        Machine { v: s.v.update(FLAG as int, if flag { 1u8 } else { 0u8 }).update(x as int, value), ..s },
    )
}

/// Whether key `code` exists and is pressed.
pub open spec fn key_down(keys: Seq<bool>, code: u8) -> bool {
    code < 16 && keys[code as int]
}

/// Whether `len` bytes starting at `start` lie inside memory.
pub open spec fn in_memory(start: u16, len: int) -> bool {
    start + len <= MEMORY_SIZE
}

/// The effect of executing `ins` on `s`, with `rnd` the random byte that
/// `Cxkk` draws. An error leaves the state as it was.
pub open spec fn execute_spec(s: Machine, ins: Instruction, rnd: u8) -> Result<Machine, Chip8Error> {
    match ins {
        Instruction::Clear => Ok(advance(Machine { screen: blank(), ..s })),
        Instruction::Return => if s.sp == 0 {
            Err(Chip8Error::StackUnderflow)
        } else {
            Ok(
                Machine {
                    sp: (s.sp - 1) as u8,
                    pc: pc_plus(s.stack[s.sp - 1], 2),
                    ..s
                },
            )
        },
        Instruction::Jump(a) => Ok(Machine { pc: a, ..s }),
        Instruction::Call(a) => if s.sp >= STACK_SIZE {
            Err(Chip8Error::StackOverflow)
        } else {
            Ok(
                Machine {
                    stack: s.stack.update(s.sp as int, s.pc),
                    sp: (s.sp + 1) as u8,
                    pc: a,
                    ..s
                },
            )
        },
        Instruction::SkipEqByte(x, kk) => Ok(skip_if(s, s.v[x as int] == kk)),
        Instruction::SkipNeByte(x, kk) => Ok(skip_if(s, s.v[x as int] != kk)),
        Instruction::SkipEqReg(x, y) => Ok(skip_if(s, s.v[x as int] == s.v[y as int])),
        Instruction::LoadByte(x, kk) => Ok(set_reg(s, x, kk)),
        Instruction::AddByte(x, kk) => Ok(set_reg(s, x, ((s.v[x as int] + kk) % 256) as u8)),
        Instruction::Move(x, y) => Ok(set_reg(s, x, s.v[y as int])),
        Instruction::Or(x, y) => Ok(set_reg(s, x, s.v[x as int] | s.v[y as int])),
        Instruction::And(x, y) => Ok(set_reg(s, x, s.v[x as int] & s.v[y as int])),
        Instruction::Xor(x, y) => Ok(set_reg(s, x, s.v[x as int] ^ s.v[y as int])),
        Instruction::AddReg(x, y) => {
            let sum = s.v[x as int] + s.v[y as int];
            Ok(
                advance(
                    Machine {
                        v: s.v.update(x as int, (sum % 256) as u8).update(
                            FLAG as int,
                            if sum > 255 {
                                1u8
                            } else {
                                0u8
                            },
                        ),
                        ..s
                    },
                ),
            )
        },
        Instruction::Sub(x, y) => Ok(
            set_flag_then_reg(
                s,
                x,
                s.v[x as int] > s.v[y as int],
                ((s.v[x as int] - s.v[y as int] + 256) % 256) as u8,
            ),
        ),
        Instruction::ShiftRight(x) => Ok(
            set_flag_then_reg(s, x, s.v[x as int] % 2 == 1, s.v[x as int] / 2),
        ),
        Instruction::SubN(x, y) => Ok(
            set_flag_then_reg(
                s,
                x,
                s.v[y as int] > s.v[x as int],
                ((s.v[y as int] - s.v[x as int] + 256) % 256) as u8,
            ),
        ),
        Instruction::ShiftLeft(x) => Ok(
            set_flag_then_reg(s, x, s.v[x as int] >= 128, ((s.v[x as int] * 2) % 256) as u8),
        ),
        Instruction::SkipNeReg(x, y) => Ok(skip_if(s, s.v[x as int] != s.v[y as int])),
        Instruction::LoadIndex(a) => Ok(advance(Machine { i: a, ..s })),
        Instruction::JumpOffset(a) => Ok(Machine { pc: (a + s.v[0]) as u16, ..s }),
        Instruction::Random(x, kk) => Ok(set_reg(s, x, rnd & kk)),
        Instruction::Draw(x, y, n) => if !in_memory(s.i, n as int) {
            Err(Chip8Error::AddressOutOfRange(s.i))
        } else {
            let rows = s.mem.subrange(s.i as int, s.i + n);
            let vx = s.v[x as int];
            let vy = s.v[y as int];
            Ok(
                advance(
                    Machine {
                        screen: draw_spec(s.screen, rows, vx, vy),
                        v: s.v.update(
                            FLAG as int,
                            if collides(s.screen, rows, vx, vy) {
                                1u8
                            } else {
                                0u8
                            },
                        ),
                        ..s
                    },
                ),
            )
        },
        Instruction::SkipKey(x) => Ok(skip_if(s, key_down(s.keys, s.v[x as int]))),
        Instruction::SkipNoKey(x) => Ok(skip_if(s, !key_down(s.keys, s.v[x as int]))),
        Instruction::LoadDelay(x) => Ok(set_reg(s, x, s.dt)),
        Instruction::WaitKey(x) => Ok(Machine { state: RunState::WaitingForKey(x), ..s }),
        Instruction::SetDelay(x) => Ok(advance(Machine { dt: s.v[x as int], ..s })),
        Instruction::SetSound(x) => Ok(advance(Machine { st: s.v[x as int], ..s })),
        Instruction::AddIndex(x) => Ok(
            advance(Machine { i: ((s.i + s.v[x as int]) % 0x10000) as u16, ..s }),
        ),
        Instruction::LoadFont(x) => Ok(
            advance(Machine { i: (s.v[x as int] * GLYPH_ROWS) as u16, ..s }),
        ),
        Instruction::StoreBcd(x) => if !in_memory(s.i, 3) {
            Err(Chip8Error::AddressOutOfRange(s.i))
        } else {
            let value = s.v[x as int];
            Ok(
                advance(
                    Machine {
                        mem: s.mem.update(s.i as int, value / 100).update(
                            s.i + 1,
                            (value / 10) % 10,
                        ).update(s.i + 2, value % 10),
                        ..s
                    },
                ),
            )
        },
        Instruction::StoreRegs(x) => if !in_memory(s.i, x + 1) {
            Err(Chip8Error::AddressOutOfRange(s.i))
        } else {
            Ok(
                advance(
                    Machine {
                        mem: Seq::new(
                            MEMORY_SIZE as nat,
                            |a: int|
                                if s.i <= a <= s.i + x {
                                    s.v[a - s.i]
                                } else {
                                    s.mem[a]
                                },
                        ),
                        ..s
                    },
                ),
            )
        },
        Instruction::LoadRegs(x) => if !in_memory(s.i, x + 1) {
            Err(Chip8Error::AddressOutOfRange(s.i))
        } else {
            Ok(
                advance(
                    Machine {
                        v: Seq::new(
                            REGISTER_COUNT as nat,
                            |k: int|
                                if k <= x {
                                    s.mem[s.i + k]
                                } else {
                                    s.v[k]
                                },
                        ),
                        ..s
                    },
                ),
            )
        },
    }
}

/// Whether the result `r` of an operation, the state `after` it and the
/// state `before` it agree with the expected outcome: the expected state on
/// success, the expected error with the state unchanged on failure.
pub open spec fn outcome<T>(
    r: Result<T, Chip8Error>,
    after: Machine,
    before: Machine,
    expected: Result<Machine, Chip8Error>,
) -> bool {
    match expected {
        Ok(m) => r is Ok && after == m,
        Err(e) => r == Err::<T, Chip8Error>(e) && after == before,
    }
}

/// The effect of one instruction cycle on `s`, with `rnd` the random byte
/// that `Cxkk` draws. While waiting for a key, a pressed key (the lowest
/// code) completes the wait and nothing happens otherwise; while running,
/// the instruction at `pc` is fetched, decoded and executed.
pub open spec fn step_spec(s: Machine, rnd: u8) -> Result<Machine, Chip8Error> {
    match s.state {
        RunState::WaitingForKey(x) => if any_pressed(s.keys) {
            Ok(
                Machine {
                    v: s.v.update(x as int, lowest_pressed(s.keys)->Some_0),
                    pc: pc_plus(s.pc, 2),
                    state: RunState::Running,
                    ..s
                },
            )
        } else {
            Ok(s)
        },
        RunState::Running => if !in_memory(s.pc, 2) {
            Err(Chip8Error::AddressOutOfRange(s.pc))
        } else {
            match decode_spec(s.mem[s.pc as int], s.mem[s.pc + 1]) {
                Ok(ins) => execute_spec(s, ins, rnd),
                Err(e) => Err(e),
            }
        },
    }
}

/// The value that a debugger `show` request reads from `m`: bytes and flags
/// widened to 16 bits, `WaitingKey` as 1 or 0; `None` for an address,
/// slot or register that does not exist.
pub open spec fn inspect_spec(m: Machine, arg: ShowArgs) -> Option<u16> {
    match arg {
        ShowArgs::PC => Some(m.pc),
        ShowArgs::Mem(a) => if a < MEMORY_SIZE {
            Some(m.mem[a as int] as u16)
        } else {
            None
        },
        ShowArgs::Stack(k) => if k < STACK_SIZE {
            Some(m.stack[k as int])
        } else {
            None
        },
        ShowArgs::SP => Some(m.sp as u16),
        ShowArgs::V(x) => if x < REGISTER_COUNT {
            Some(m.v[x as int] as u16)
        } else {
            None
        },
        ShowArgs::I => Some(m.i),
        ShowArgs::DT => Some(m.dt as u16),
        ShowArgs::ST => Some(m.st as u16),
        ShowArgs::WaitingKey => Some(
            if m.state is WaitingForKey {
                1u16
            } else {
                0u16
            },
        ),
    }
}

/// Relies on rand::random: a byte drawn from the thread-local generator.
/// Nothing is promised of its value.
#[verifier::external_body]
fn random_byte() -> (r: u8) {
    rand::random::<u8>()
}

/// The interpreter: registers, program counter, call stack, timers, and the
/// memory, screen and keypad it drives.
pub struct CPU {
    v: [u8; REGISTER_COUNT],
    i: u16,
    pc: u16,
    sp: u8,
    dt: u8,
    st: u8,
    stack: [u16; STACK_SIZE],
    memory: Memory,
    display: Framebuffer,
    keyboard: Keyboard,
    state: RunState,
}

impl View for CPU {
    type V = Machine;

    closed spec fn view(&self) -> Machine {
        Machine {
            v: self.v@,
            i: self.i,
            pc: self.pc,
            sp: self.sp,
            dt: self.dt,
            st: self.st,
            stack: self.stack@,
            mem: self.memory@,
            screen: self.display@,
            keys: self.keyboard@,
            state: self.state,
        }
    }
}

impl CPU {
    /// Whether the state is well formed.
    pub open spec fn wf(&self) -> bool {
        self@.wf()
    }

    /// A machine about to run the program in `memory`: `pc` at the program
    /// start, empty stack, registers and timers zero.
    pub fn new(memory: Memory, display: Framebuffer, keyboard: Keyboard) -> (r: Self)
        ensures
            r.wf(),
            r@ == (Machine {
                v: Seq::new(REGISTER_COUNT as nat, |k: int| 0u8),
                i: 0,
                pc: ROM_START as u16,
                sp: 0,
                dt: 0,
                st: 0,
                stack: Seq::new(STACK_SIZE as nat, |k: int| 0u16),
                mem: memory@,
                screen: display@,
                keys: keyboard@,
                state: RunState::Running,
            }),
    {
        let r = Self {
            v: [0; REGISTER_COUNT],
            i: 0,
            pc: ROM_START as u16,
            sp: 0,
            dt: 0,
            st: 0,
            stack: [0; STACK_SIZE],
            memory,
            display,
            keyboard,
            state: RunState::Running,
        };
        assert(r@.v =~= Seq::new(REGISTER_COUNT as nat, |k: int| 0u8));
        assert(r@.stack =~= Seq::new(STACK_SIZE as nat, |k: int| 0u16));
        r
    }

    /// Moves on to the next instruction.
    fn increment_pc(&mut self)
        ensures
            final(self)@ == advance(old(self)@),
    {
        self.pc = self.pc.wrapping_add(2);
    }

    /// Skips the next instruction.
    fn skip_next_instruction(&mut self)
        ensures
            final(self)@ == skip_if(old(self)@, true),
    {
        self.pc = self.pc.wrapping_add(4);
    }

    /// Skips the next instruction when `taken`, else moves on to it.
    fn skip_when(&mut self, taken: bool)
        ensures
            final(self)@ == skip_if(old(self)@, taken),
    {
        if taken {
            self.skip_next_instruction();
        } else {
            self.increment_pc();
        }
    }

    /// Executes `ins`, with `random` standing for the byte that `Cxkk`
    /// draws. On an error nothing changes.
    pub fn execute(&mut self, ins: Instruction, random: u8) -> (r: Result<(), Chip8Error>)
        requires
            old(self).wf(),
            operands_in_range(ins),
        ensures
            final(self).wf(),
            outcome(r, final(self)@, old(self)@, execute_spec(old(self)@, ins, random)),
    {
        match ins {
            Instruction::Return => self.return_from_call(),
            Instruction::Call(a) => self.call(a),
            Instruction::Draw(x, y, n) => self.draw(x, y, n),
            Instruction::StoreBcd(x) => self.store_bcd(x),
            Instruction::StoreRegs(x) => self.store_registers(x),
            Instruction::LoadRegs(x) => self.load_registers(x),
            Instruction::LoadByte(_, _) | Instruction::AddByte(_, _) | Instruction::Move(_, _)
            | Instruction::Or(_, _) | Instruction::And(_, _) | Instruction::Xor(_, _)
            | Instruction::Random(_, _) => {
                self.execute_register(ins, random);
                Ok(())
            },
            Instruction::AddReg(_, _) | Instruction::Sub(_, _) | Instruction::ShiftRight(_)
            | Instruction::SubN(_, _) | Instruction::ShiftLeft(_) => {
                self.execute_flagged(ins);
                Ok(())
            },
            Instruction::LoadIndex(_) | Instruction::LoadDelay(_) | Instruction::SetDelay(_)
            | Instruction::SetSound(_) | Instruction::AddIndex(_) | Instruction::LoadFont(_) => {
                self.execute_load(ins);
                Ok(())
            },
            _ => {
                self.execute_control(ins);
                Ok(())
            },
        }
    }

    /// `00EE`: pops a return address and continues after the call.
    fn return_from_call(&mut self) -> (r: Result<(), Chip8Error>)
        requires
            old(self).wf(),
        ensures
            final(self).wf(),
            outcome(r, final(self)@, old(self)@, execute_spec(old(self)@, Instruction::Return, 0)),
    {
        if self.sp == 0 {
            return Err(Chip8Error::StackUnderflow);
        }
        self.sp = self.sp - 1;
        self.pc = self.stack[self.sp as usize].wrapping_add(2);
        Ok(())
    }

    /// `2nnn`: pushes `pc` and jumps to `a`.
    fn call(&mut self, a: u16) -> (r: Result<(), Chip8Error>)
        requires
            old(self).wf(),
        ensures
            final(self).wf(),
            outcome(r, final(self)@, old(self)@, execute_spec(old(self)@, Instruction::Call(a), 0)),
    {
        if self.sp as usize >= STACK_SIZE {
            return Err(Chip8Error::StackOverflow);
        }
        let ghost s = self@;
        self.stack[self.sp as usize] = self.pc;
        self.sp = self.sp + 1;
        self.pc = a;
        assert(self@.stack =~= s.stack.update(s.sp as int, s.pc));
        Ok(())
    }

    /// Jumps, skips and the start of a key wait.
    #[verifier::rlimit(30)]
    fn execute_control(&mut self, ins: Instruction)
        requires
            old(self).wf(),
            operands_in_range(ins),
            ins is Clear || ins is Jump || ins is SkipEqByte || ins is SkipNeByte
                || ins is SkipEqReg || ins is SkipNeReg || ins is JumpOffset || ins is SkipKey
                || ins is SkipNoKey || ins is WaitKey,
        ensures
            final(self).wf(),
            execute_spec(old(self)@, ins, 0) is Ok,
            final(self)@ == execute_spec(old(self)@, ins, 0)->Ok_0,
    {
        let ghost s = self@;
        match ins {
            Instruction::Clear => {
                self.display.clear();
                self.increment_pc();
            },
            Instruction::Jump(a) => {
                self.pc = a;
            },
            Instruction::SkipEqByte(x, kk) => {
                let taken = self.v[x as usize] == kk;
                self.skip_when(taken);
            },
            Instruction::SkipNeByte(x, kk) => {
                let taken = self.v[x as usize] != kk;
                self.skip_when(taken);
            },
            Instruction::SkipEqReg(x, y) => {
                let taken = self.v[x as usize] == self.v[y as usize];
                self.skip_when(taken);
            },
            Instruction::SkipNeReg(x, y) => {
                let taken = self.v[x as usize] != self.v[y as usize];
                self.skip_when(taken);
            },
            Instruction::JumpOffset(a) => {
                self.pc = a + self.v[0] as u16;
            },
            Instruction::SkipKey(x) => {
                let code = self.v[x as usize];
                let taken = code < 16 && self.keyboard.is_pressed(code);
                self.skip_when(taken);
            },
            Instruction::SkipNoKey(x) => {
                let code = self.v[x as usize];
                let taken = !(code < 16 && self.keyboard.is_pressed(code));
                self.skip_when(taken);
            },
            Instruction::WaitKey(x) => {
                self.state = RunState::WaitingForKey(x);
            },
            _ => {},
        }
        proof {
            assert(self@.v =~= execute_spec(s, ins, 0)->Ok_0.v);
            assert(self@.stack =~= execute_spec(s, ins, 0)->Ok_0.stack);
        }
    }

    /// Register loads, logic, and `Cxkk`.
    #[verifier::rlimit(30)]
    fn execute_register(&mut self, ins: Instruction, random: u8)
        requires
            old(self).wf(),
            operands_in_range(ins),
            ins is LoadByte || ins is AddByte || ins is Move || ins is Or || ins is And
                || ins is Xor || ins is Random,
        ensures
            final(self).wf(),
            execute_spec(old(self)@, ins, random) is Ok,
            final(self)@ == execute_spec(old(self)@, ins, random)->Ok_0,
    {
        let ghost s = self@;
        match ins {
            Instruction::LoadByte(x, kk) => {
                self.v[x as usize] = kk;
                self.increment_pc();
            },
            Instruction::AddByte(x, kk) => {
                self.v[x as usize] = self.v[x as usize].wrapping_add(kk);
                self.increment_pc();
            },
            Instruction::Move(x, y) => {
                self.v[x as usize] = self.v[y as usize];
                self.increment_pc();
            },
            Instruction::Or(x, y) => {
                self.v[x as usize] = self.v[x as usize] | self.v[y as usize];
                self.increment_pc();
            },
            Instruction::And(x, y) => {
                self.v[x as usize] = self.v[x as usize] & self.v[y as usize];
                self.increment_pc();
            },
            Instruction::Xor(x, y) => {
                self.v[x as usize] = self.v[x as usize] ^ self.v[y as usize];
                self.increment_pc();
            },
            Instruction::Random(x, kk) => {
                self.v[x as usize] = random & kk;
                self.increment_pc();
            },
            _ => {},
        }
        proof {
            assert(self@.v =~= execute_spec(s, ins, random)->Ok_0.v);
        }
    }

    /// Writes the flag `VF` first, then `Vx = value`, and moves on.
    fn set_flag_then_register(&mut self, x: u8, flag: bool, value: u8)
        requires
            old(self).wf(),
            x < 16,
        ensures
            final(self).wf(),
            final(self)@ == set_flag_then_reg(old(self)@, x, flag, value),
    {
        let ghost s = self@;
        self.v[FLAG] = if flag {
            1
        } else {
            0
        };
        self.v[x as usize] = value;
        self.increment_pc();
        assert(self@.v =~= set_flag_then_reg(s, x, flag, value).v);
    }

    /// `8xy4`: `Vx = Vx + Vy` wrapping, then `VF` = carry.
    #[verifier::rlimit(30)]
    fn add_registers(&mut self, x: u8, y: u8)
        requires
            old(self).wf(),
            x < 16,
            y < 16,
        ensures
            final(self).wf(),
            execute_spec(old(self)@, Instruction::AddReg(x, y), 0) is Ok,
            final(self)@ == execute_spec(old(self)@, Instruction::AddReg(x, y), 0)->Ok_0,
    {
        let ghost s = self@;
        let sum: u16 = self.v[x as usize] as u16 + self.v[y as usize] as u16;
        self.v[x as usize] = (sum % 256) as u8;
        self.v[FLAG] = if sum > 255 {
            1
        } else {
            0
        };
        self.increment_pc();
        assert(self@.v =~= execute_spec(s, Instruction::AddReg(x, y), 0)->Ok_0.v);
    }

    /// Arithmetic that reports carry, borrow or a shifted-out bit in `VF`.
    #[verifier::rlimit(30)]
    fn execute_flagged(&mut self, ins: Instruction)
        requires
            old(self).wf(),
            operands_in_range(ins),
            ins is AddReg || ins is Sub || ins is ShiftRight || ins is SubN || ins is ShiftLeft,
        ensures
            final(self).wf(),
            execute_spec(old(self)@, ins, 0) is Ok,
            final(self)@ == execute_spec(old(self)@, ins, 0)->Ok_0,
    {
        let ghost s = self@;
        match ins {
            Instruction::AddReg(x, y) => {
                self.add_registers(x, y);
            },
            Instruction::Sub(x, y) => {
                let a = self.v[x as usize];
                let b = self.v[y as usize];
                self.set_flag_then_register(x, a > b, a.wrapping_sub(b));
            },
            Instruction::ShiftRight(x) => {
                let a = self.v[x as usize];
                self.set_flag_then_register(x, a % 2 == 1, a / 2);
            },
            Instruction::SubN(x, y) => {
                let a = self.v[x as usize];
                let b = self.v[y as usize];
                self.set_flag_then_register(x, b > a, b.wrapping_sub(a));
            },
            Instruction::ShiftLeft(x) => {
                let a = self.v[x as usize];
                self.set_flag_then_register(x, a >= 128, ((a as u16 * 2) % 256) as u8);
            },
            _ => {},
        }
    }

    /// The index register and the timers.
    #[verifier::rlimit(30)]
    fn execute_load(&mut self, ins: Instruction)
        requires
            old(self).wf(),
            operands_in_range(ins),
            ins is LoadIndex || ins is LoadDelay || ins is SetDelay || ins is SetSound
                || ins is AddIndex || ins is LoadFont,
        ensures
            final(self).wf(),
            execute_spec(old(self)@, ins, 0) is Ok,
            final(self)@ == execute_spec(old(self)@, ins, 0)->Ok_0,
    {
        let ghost s = self@;
        match ins {
            Instruction::LoadIndex(a) => {
                self.i = a;
                self.increment_pc();
            },
            Instruction::LoadDelay(x) => {
                self.v[x as usize] = self.dt;
                self.increment_pc();
            },
            Instruction::SetDelay(x) => {
                self.dt = self.v[x as usize];
                self.increment_pc();
            },
            Instruction::SetSound(x) => {
                self.st = self.v[x as usize];
                self.increment_pc();
            },
            Instruction::AddIndex(x) => {
                self.i = self.i.wrapping_add(self.v[x as usize] as u16);
                self.increment_pc();
            },
            Instruction::LoadFont(x) => {
                self.i = self.v[x as usize] as u16 * GLYPH_ROWS as u16;
                self.increment_pc();
            },
            _ => {},
        }
        proof {
            assert(self@.v =~= execute_spec(s, ins, 0)->Ok_0.v);
            assert(self@.stack =~= execute_spec(s, ins, 0)->Ok_0.stack);
        }
    }

    /// `Dxyn`: draws the `n` bytes at `I` as a sprite at `(Vx, Vy)`.
    fn draw(&mut self, x: u8, y: u8, n: u8) -> (r: Result<(), Chip8Error>)
        requires
            old(self).wf(),
            x < 16,
            y < 16,
            n < 16,
        ensures
            final(self).wf(),
            outcome(r, final(self)@, old(self)@, execute_spec(old(self)@, Instruction::Draw(x, y, n), 0)),
    {
        if self.i as usize + n as usize > MEMORY_SIZE {
            return Err(Chip8Error::AddressOutOfRange(self.i));
        }
        let rows = self.memory.bytes(self.i as usize, n as usize);
        let collision = self.display.draw_sprite(self.v[x as usize], self.v[y as usize], rows.as_slice());
        self.v[FLAG] = if collision {
            1
        } else {
            0
        };
        self.increment_pc();
        Ok(())
    }

    /// `Fx33`: stores the hundreds, tens and ones of `Vx` at `I..I+3`.
    fn store_bcd(&mut self, x: u8) -> (r: Result<(), Chip8Error>)
        requires
            old(self).wf(),
            x < 16,
        ensures
            final(self).wf(),
            outcome(r, final(self)@, old(self)@, execute_spec(old(self)@, Instruction::StoreBcd(x), 0)),
    {
        if self.i as usize + 3 > MEMORY_SIZE {
            return Err(Chip8Error::AddressOutOfRange(self.i));
        }
        let value = self.v[x as usize];
        let _ = self.memory.write(self.i, value / 100);
        let _ = self.memory.write(self.i + 1, (value / 10) % 10);
        let _ = self.memory.write(self.i + 2, value % 10);
        self.increment_pc();
        Ok(())
    }

    /// `Fx55`: stores `V0..=Vx` at `I..=I+x`.
    #[verifier::rlimit(30)]
    fn store_registers(&mut self, x: u8) -> (r: Result<(), Chip8Error>)
        requires
            old(self).wf(),
            x < 16,
        ensures
            final(self).wf(),
            outcome(r, final(self)@, old(self)@, execute_spec(old(self)@, Instruction::StoreRegs(x), 0)),
    {
        if self.i as usize + x as usize + 1 > MEMORY_SIZE {
            return Err(Chip8Error::AddressOutOfRange(self.i));
        }
        let ghost s = self@;
        let mut k: u8 = 0;
        while k <= x
            invariant
                s.wf(),
                x < 16,
                k <= x + 1,
                self.i + x + 1 <= MEMORY_SIZE,
                self@ == (Machine { mem: self@.mem, ..s }),
                self@.mem.len() == MEMORY_SIZE,
                forall|a: int|
                    0 <= a < MEMORY_SIZE ==> #[trigger] self@.mem[a] == if s.i <= a < s.i + k {
                        s.v[a - s.i]
                    } else {
                        s.mem[a]
                    },
            decreases x + 1 - k,
        {
            let _ = self.memory.write(self.i + k as u16, self.v[k as usize]);
            k = k + 1;
        }
        self.increment_pc();
        assert(self@.mem =~= execute_spec(s, Instruction::StoreRegs(x), 0)->Ok_0.mem);
        Ok(())
    }

    /// `Fx65`: loads `V0..=Vx` from `I..=I+x`.
    #[verifier::rlimit(30)]
    fn load_registers(&mut self, x: u8) -> (r: Result<(), Chip8Error>)
        requires
            old(self).wf(),
            x < 16,
        ensures
            final(self).wf(),
            outcome(r, final(self)@, old(self)@, execute_spec(old(self)@, Instruction::LoadRegs(x), 0)),
    {
        if self.i as usize + x as usize + 1 > MEMORY_SIZE {
            return Err(Chip8Error::AddressOutOfRange(self.i));
        }
        let ghost s = self@;
        let mut k: u8 = 0;
        while k <= x
            invariant
                s.wf(),
                x < 16,
                k <= x + 1,
                self.i + x + 1 <= MEMORY_SIZE,
                self@ == (Machine { v: self@.v, ..s }),
                self@.v.len() == REGISTER_COUNT,
                forall|j: int|
                    0 <= j < REGISTER_COUNT ==> #[trigger] self@.v[j] == if j < k {
                        s.mem[s.i + j]
                    } else {
                        s.v[j]
                    },
            decreases x + 1 - k,
        {
            let value = match self.memory.read(self.i + k as u16) {
                Ok(b) => b,
                Err(_) => 0,
            };
            self.v[k as usize] = value;
            k = k + 1;
        }
        self.increment_pc();
        assert(self@.v =~= execute_spec(s, Instruction::LoadRegs(x), 0)->Ok_0.v);
        Ok(())
    }

    /// Decodes the instruction word `lhs rhs` and executes it; `Cxkk` draws
    /// its byte from the random source. Returns the instruction executed.
    pub fn decode(&mut self, lhs: u8, rhs: u8) -> (r: Result<Instruction, Chip8Error>)
        requires
            old(self).wf(),
        ensures
            final(self).wf(),
            match decode_spec(lhs, rhs) {
                Ok(ins) => exists|rnd: u8|
                    #[trigger] outcome(r, final(self)@, old(self)@, execute_spec(old(self)@, ins, rnd)),
                Err(e) => r == Err::<Instruction, Chip8Error>(e) && final(self)@ == old(self)@,
            },
            r is Ok ==> decode_spec(lhs, rhs) == Ok::<Instruction, Chip8Error>(r->Ok_0),
    {
        let ins = match decode_instruction(lhs, rhs) {
            Ok(ins) => ins,
            Err(e) => return Err(e),
        };
        let random: u8 = match ins {
            Instruction::Random(_, _) => random_byte(),
            _ => 0,
        };
        let r = match self.execute(ins, random) {
            Ok(()) => Ok(ins),
            Err(e) => Err(e),
        };
        assert(outcome(r, self@, old(self)@, execute_spec(old(self)@, ins, random)));
        r
    }

    /// Runs one instruction cycle. While waiting for a key, a pressed key
    /// (the lowest code) is stored in the waiting register and execution
    /// moves past `Fx0A`; with no key pressed nothing changes. While running,
    /// the instruction at `pc` is fetched and executed.
    #[verifier::rlimit(30)]
    pub fn step(&mut self) -> (r: Result<(), Chip8Error>)
        requires
            old(self).wf(),
        ensures
            final(self).wf(),
            exists|rnd: u8| #[trigger] outcome(r, final(self)@, old(self)@, step_spec(old(self)@, rnd)),
    {
        let ghost s = self@;
        if let RunState::WaitingForKey(x) = self.state {
            match self.keyboard.first_pressed() {
                Some(k) => {
                    self.v[x as usize] = k;
                    self.state = RunState::Running;
                    self.increment_pc();
                    assert(self@.v =~= step_spec(s, 0)->Ok_0.v);
                },
                None => {},
            }
            assert(outcome(Ok::<(), Chip8Error>(()), self@, s, step_spec(s, 0)));
            return Ok(());
        }
        if self.pc as usize + 2 > MEMORY_SIZE {
            let r = Err(Chip8Error::AddressOutOfRange(self.pc));
            assert(outcome(r, self@, s, step_spec(s, 0)));
            return r;
        }
        let lhs = match self.memory.read(self.pc) {
            Ok(b) => b,
            Err(_) => 0,
        };
        let rhs = match self.memory.read(self.pc + 1) {
            Ok(b) => b,
            Err(_) => 0,
        };
        let decoded = self.decode(lhs, rhs);
        let r = match decoded {
            Ok(_) => Ok(()),
            Err(e) => Err(e),
        };
        proof {
            match decode_spec(lhs, rhs) {
                Ok(ins) => {
                    let rnd = choose|rnd: u8|
                        #[trigger] outcome(
                            decoded,
                            self@,
                            s,
                            execute_spec(s, ins, rnd),
                        );
                    assert(outcome(r, self@, s, step_spec(s, rnd)));
                },
                Err(e) => {
                    assert(outcome(r, self@, s, step_spec(s, 0)));
                },
            }
        }
        r
    }

    /// Counts each nonzero timer down by one. The driver calls this at the
    /// timer rate, independently of how fast instructions run.
    pub fn tick_timers(&mut self)
        requires
            old(self).wf(),
        ensures
            final(self).wf(),
            final(self)@ == (Machine {
                dt: if old(self)@.dt > 0 { (old(self)@.dt - 1) as u8 } else { 0 },
                st: if old(self)@.st > 0 { (old(self)@.st - 1) as u8 } else { 0 },
                ..old(self)@
            }),
    {
        if self.dt > 0 {
            self.dt = self.dt - 1;
        }
        if self.st > 0 {
            self.st = self.st - 1;
        }
    }

    /// The program counter.
    pub fn pc(&self) -> (r: u16)
        ensures
            r == self@.pc,
    {
        self.pc
    }

    /// Sets the program counter.
    pub fn set_pc(&mut self, pc: u16)
        requires
            old(self).wf(),
        ensures
            final(self).wf(),
            final(self)@ == (Machine { pc, ..old(self)@ }),
    {
        self.pc = pc;
    }

    /// The stack pointer: the number of return addresses on the stack.
    pub fn sp(&self) -> (r: u8)
        ensures
            r == self@.sp,
    {
        self.sp
    }

    /// Sets the stack pointer.
    pub fn set_sp(&mut self, sp: u8)
        requires
            old(self).wf(),
            sp <= STACK_SIZE,
        ensures
            final(self).wf(),
            final(self)@ == (Machine { sp, ..old(self)@ }),
    {
        self.sp = sp;
    }

    /// The return address in stack slot `slot`.
    pub fn stack_at(&self, slot: usize) -> (r: u16)
        requires
            self.wf(),
            slot < STACK_SIZE,
        ensures
            r == self@.stack[slot as int],
    {
        self.stack[slot]
    }

    /// The index register `I`.
    pub fn i(&self) -> (r: u16)
        ensures
            r == self@.i,
    {
        self.i
    }

    /// Sets the index register `I`.
    pub fn set_i(&mut self, i: u16)
        requires
            old(self).wf(),
        ensures
            final(self).wf(),
            final(self)@ == (Machine { i, ..old(self)@ }),
    {
        self.i = i;
    }

    /// The delay timer.
    pub fn dt(&self) -> (r: u8)
        ensures
            r == self@.dt,
    {
        self.dt
    }

    /// Sets the delay timer.
    pub fn set_dt(&mut self, dt: u8)
        requires
            old(self).wf(),
        ensures
            final(self).wf(),
            final(self)@ == (Machine { dt, ..old(self)@ }),
    {
        self.dt = dt;
    }

    /// The sound timer.
    pub fn st(&self) -> (r: u8)
        ensures
            r == self@.st,
    {
        self.st
    }

    /// Register `Vx`.
    pub fn v(&self, x: usize) -> (r: u8)
        requires
            self.wf(),
            x < REGISTER_COUNT,
        ensures
            r == self@.v[x as int],
    {
        self.v[x]
    }

    /// Sets register `Vx`.
    pub fn set_v(&mut self, x: usize, value: u8)
        requires
            old(self).wf(),
            x < REGISTER_COUNT,
        ensures
            final(self).wf(),
            final(self)@ == (Machine { v: old(self)@.v.update(x as int, value), ..old(self)@ }),
    {
        self.v[x] = value;
    }

    /// Whether the interpreter is running or stalled on a key wait.
    pub fn state(&self) -> (r: RunState)
        ensures
            r == self@.state,
    {
        self.state
    }

    /// Whether the interpreter is stalled on a key wait.
    pub fn is_waiting_key(&self) -> (r: bool)
        ensures
            r == (self@.state is WaitingForKey),
    {
        match self.state {
            RunState::WaitingForKey(_) => true,
            RunState::Running => false,
        }
    }

    /// The memory.
    pub fn memory(&self) -> (r: &Memory)
        ensures
            r@ == self@.mem,
    {
        &self.memory
    }

    /// The memory, for changing it in place.
    pub fn memory_mut(&mut self) -> (r: &mut Memory)
        requires
            old(self).wf(),
        ensures
            r@ == old(self)@.mem,
            final(self)@ == (Machine { mem: final(r)@, ..old(self)@ }),
    {
        &mut self.memory
    }

    /// The screen.
    pub fn display(&self) -> (r: &Framebuffer)
        ensures
            r@ == self@.screen,
    {
        &self.display
    }

    /// The keypad.
    pub fn keyboard(&self) -> (r: &Keyboard)
        ensures
            r@ == self@.keys,
    {
        &self.keyboard
    }

    /// The keypad, for pressing and releasing keys.
    pub fn keyboard_mut(&mut self) -> (r: &mut Keyboard)
        requires
            old(self).wf(),
        ensures
            r@ == old(self)@.keys,
            final(self)@ == (Machine { keys: final(r)@, ..old(self)@ }),
    {
        &mut self.keyboard
    }

    /// Reads what a debugger `show` request asks for.
    pub fn inspect(&self, arg: ShowArgs) -> (r: Option<u16>)
        requires
            self.wf(),
        ensures
            r == inspect_spec(self@, arg),
    {
        match arg {
            ShowArgs::PC => Some(self.pc),
            ShowArgs::Mem(a) => if a < MEMORY_SIZE {
                match self.memory.read(a as u16) {
                    Ok(b) => Some(b as u16),
                    Err(_) => None,
                }
            } else {
                None
            },
            ShowArgs::Stack(k) => if k < STACK_SIZE {
                Some(self.stack[k])
            } else {
                None
            },
            ShowArgs::SP => Some(self.sp as u16),
            ShowArgs::V(x) => if (x as usize) < REGISTER_COUNT {
                Some(self.v[x as usize] as u16)
            } else {
                None
            },
            ShowArgs::I => Some(self.i),
            ShowArgs::DT => Some(self.dt as u16),
            ShowArgs::ST => Some(self.st as u16),
            ShowArgs::WaitingKey => Some(
                if self.is_waiting_key() {
                    1
                } else {
                    0
                },
            ),
        }
    }
}

} // verus!
