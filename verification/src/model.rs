//! The mathematical model of the machine: its state as sequences and
//! integers, and the effect of every operation as a function on that state.

use crate::error::Chip8Error;
use crate::instruction::{decode_spec, Instruction};
use vstd::prelude::*;

verus! {

/// Bytes of memory, addressed `0x000..=0xFFF`.
pub const MEMORY_SIZE: usize = 4096;

/// Where a program is loaded and where execution starts.
pub const PROGRAM_START: u16 = 0x200;

/// The longest program that fits between `PROGRAM_START` and the end of
/// memory.
pub const MAX_ROM_SIZE: usize = 3584;

/// Pixels in a row of the display.
pub const DISPLAY_WIDTH: usize = 64;

/// Rows of the display.
pub const DISPLAY_HEIGHT: usize = 32;

/// Cells of the framebuffer, one per pixel, row after row.
pub const DISPLAY_CELLS: usize = 2048;

/// Return addresses that the stack holds at most.
pub const STACK_DEPTH: usize = 16;

/// Where the host places the font table: the glyph of digit `d` occupies
/// `FONT_BASE + 5 * d .. FONT_BASE + 5 * d + 5`.
pub const FONT_BASE: u16 = 0x000;

/// Bytes of one font glyph, one per sprite row.
pub const GLYPH_BYTES: u16 = 5;

/// Bytes of the font table: sixteen glyphs.
pub const FONT_SIZE: usize = 80;

/// The machine as a mathematical value: what a [`crate::cpu::CPU`] stands
/// for in contracts.
pub struct Machine {
    /// The 4096 bytes of memory.
    pub memory: Seq<u8>,
    /// The registers `V0..=VF`.
    pub registers: Seq<u8>,
    /// The index register `I`.
    pub index: int,
    /// The program counter.
    pub pc: int,
    /// The return addresses of the calls in progress, the innermost last.
    /// Its length is the stack pointer.
    pub stack: Seq<int>,
    /// The delay timer.
    pub delay_timer: u8,
    /// The sound timer.
    pub sound_timer: u8,
    /// For each of the sixteen keys, whether it is down.
    pub keys: Seq<bool>,
    /// The framebuffer: cell `64 * y + x` is the pixel in column `x` of row
    /// `y`, `1` when lit.
    pub screen: Seq<u8>,
    /// Whether the machine is blocked in a key wait.
    pub waiting: bool,
}

/// Whether some key is down.
pub open spec fn any_pressed(keys: Seq<bool>) -> bool {
    exists|k: int| 0 <= k < keys.len() && keys[k]
}

/// Whether `k` is the lowest index of a key that is down.
pub open spec fn is_first_pressed(keys: Seq<bool>, k: int) -> bool {
    &&& 0 <= k < keys.len()
    &&& keys[k]
    &&& forall|j: int| 0 <= j < k ==> !keys[j]
}

/// The lowest index of a key that is down, where there is one.
pub open spec fn first_pressed(keys: Seq<bool>) -> int {
    choose|k: int| is_first_pressed(keys, k)
}

/// Where `k` is the lowest index of a key that is down, some key is down
/// and `first_pressed` is `k`.
pub proof fn lemma_first_pressed(keys: Seq<bool>, k: int)
    requires
        is_first_pressed(keys, k),
    ensures
        any_pressed(keys),
        first_pressed(keys) == k,
{
    let chosen = first_pressed(keys);
    assert(is_first_pressed(keys, chosen));
    if chosen < k {
        assert(!keys[chosen]);
    }
    if k < chosen {
        assert(!keys[k]);
    }
}

/// Whether bit `bit` of a sprite row is set, counting from the leftmost
/// pixel, which is the highest bit.
pub open spec fn sprite_bit(row: u8, bit: int) -> bool {
    row & (0x80u8 >> (bit as u8)) != 0
}

/// A lit cell goes dark and a dark cell is lit.
pub open spec fn toggled(cell: u8) -> u8 {
    if cell == 0 {
        1
    } else {
        0
    }
}

/// Whether bit `bit` of the sprite row `bits`, drawn in row `py` with its
/// leftmost pixel in column `vx`, lies over the framebuffer cell `cell` and
/// is set, counting only the first `width` bits of the row.
pub open spec fn row_covers(bits: u8, vx: int, py: int, width: int, cell: int) -> bool {
    let bit = cell % (DISPLAY_WIDTH as int) - vx;
    &&& cell / (DISPLAY_WIDTH as int) == py
    &&& 0 <= bit < width
    &&& sprite_bit(bits, bit)
}

/// Whether `sprite`, drawn with its corner in column `vx` of row `vy`, has
/// a set bit over the framebuffer cell `cell`. Columns and rows are not
/// wrapped: what falls outside the display covers no cell.
pub open spec fn sprite_covers(sprite: Seq<u8>, vx: int, vy: int, cell: int) -> bool {
    let row = cell / (DISPLAY_WIDTH as int) - vy;
    &&& 0 <= row < sprite.len()
    &&& row_covers(sprite[row], vx, vy + row, 8, cell)
}

/// Whether `sprite`, so drawn, has a set bit over a cell of `screen` that
/// is lit.
pub open spec fn sprite_collides(screen: Seq<u8>, sprite: Seq<u8>, vx: int, vy: int) -> bool {
    exists|cell: int|
        0 <= cell < screen.len() && #[trigger] sprite_covers(sprite, vx, vy, cell) && screen[cell]
            == 1
}

/// `screen` after `sprite` is so drawn: the cells that it covers are
/// toggled.
pub open spec fn sprite_drawn(screen: Seq<u8>, sprite: Seq<u8>, vx: int, vy: int) -> Seq<u8> {
    Seq::new(
        screen.len(),
        |cell: int|
            if sprite_covers(sprite, vx, vy, cell) {
                toggled(screen[cell])
            } else {
                screen[cell]
            },
    )
}

impl Machine {
    /// Two machines that agree field by field, element by element, are
    /// equal.
    pub proof fn lemma_equal(self, other: Machine)
        requires
            self.memory =~= other.memory,
            self.registers =~= other.registers,
            self.index == other.index,
            self.pc == other.pc,
            self.stack =~= other.stack,
            self.delay_timer == other.delay_timer,
            self.sound_timer == other.sound_timer,
            self.keys =~= other.keys,
            self.screen =~= other.screen,
            self.waiting == other.waiting,
        ensures
            self == other,
    {
    }

    /// The sizes and ranges that every machine keeps.
    pub open spec fn wf(self) -> bool {
        &&& self.memory.len() == MEMORY_SIZE
        &&& self.registers.len() == 16
        &&& 0 <= self.index <= 0xFFF
        &&& 0 <= self.pc <= 0xFFFF
        &&& self.stack.len() <= STACK_DEPTH
        &&& forall|k: int| 0 <= k < self.stack.len() ==> 0 <= #[trigger] self.stack[k] <= 0xFFFF
        &&& self.keys.len() == 16
        &&& self.screen.len() == DISPLAY_CELLS
        &&& forall|c: int| 0 <= c < self.screen.len() ==> #[trigger] self.screen[c] <= 1
    }

    /// The machine as it is constructed: everything zero, no key down, the
    /// display dark, the program counter at the program start.
    pub open spec fn initial() -> Machine {
        Machine {
            memory: Seq::new(MEMORY_SIZE as nat, |a: int| 0u8),
            registers: Seq::new(16, |i: int| 0u8),
            index: 0,
            pc: PROGRAM_START as int,
            stack: Seq::empty(),
            delay_timer: 0,
            sound_timer: 0,
            keys: Seq::new(16, |k: int| false),
            screen: Seq::new(DISPLAY_CELLS as nat, |c: int| 0u8),
            waiting: false,
        }
    }

    /// The initial machine with this machine's memory.
    pub open spec fn reset(self) -> Machine {
        Machine { memory: self.memory, ..Machine::initial() }
    }

    /// This machine with a memory that holds `rom` from the program start
    /// on and zero everywhere else.
    pub open spec fn load_rom(self, rom: Seq<u8>) -> Machine {
        Machine {
            memory: Seq::new(
                MEMORY_SIZE as nat,
                |a: int|
                    if PROGRAM_START <= a < PROGRAM_START + rom.len() {
                        rom[a - PROGRAM_START]
                    } else {
                        0u8
                    },
            ),
            ..self
        }
    }

    /// This machine with `font` written from `FONT_BASE` on.
    pub open spec fn load_font(self, font: Seq<u8>) -> Machine {
        Machine {
            memory: Seq::new(
                MEMORY_SIZE as nat,
                |a: int|
                    if FONT_BASE <= a < FONT_BASE + font.len() {
                        font[a - FONT_BASE]
                    } else {
                        self.memory[a]
                    },
            ),
            ..self
        }
    }

    /// This machine with key `k` down or up.
    pub open spec fn set_key(self, k: int, pressed: bool) -> Machine {
        Machine { keys: self.keys.update(k, pressed), ..self }
    }

    /// This machine with both timers one lower, but not below zero.
    pub open spec fn tick_timers(self) -> Machine {
        Machine {
            delay_timer: if self.delay_timer > 0 {
                (self.delay_timer - 1) as u8
            } else {
                0
            },
            sound_timer: if self.sound_timer > 0 {
                (self.sound_timer - 1) as u8
            } else {
                0
            },
            ..self
        }
    }

    /// Whether the two bytes at the program counter lie inside memory.
    pub open spec fn can_fetch(self) -> bool {
        0 <= self.pc && self.pc + 1 < MEMORY_SIZE
    }

    /// The instruction word at the program counter, high byte first.
    pub open spec fn fetched_word(self) -> u16 {
        (self.memory[self.pc] * 0x100 + self.memory[self.pc + 1]) as u16
    }

    /// The instruction at the program counter.
    pub open spec fn current_instruction(self) -> Instruction {
        decode_spec(self.fetched_word())
    }

    /// This machine after the fetch: the program counter has moved past the
    /// instruction, unless the machine is blocked in a key wait.
    pub open spec fn after_fetch(self) -> Machine {
        Machine {
            pc: if self.waiting {
                self.pc
            } else {
                self.pc + 2
            },
            ..self
        }
    }

    /// This machine with the next instruction skipped if `condition` holds.
    pub open spec fn skip_if(self, condition: bool) -> Machine {
        Machine {
            pc: if condition {
                self.pc + 2
            } else {
                self.pc
            },
            ..self
        }
    }

    /// This machine with `value` in register `x`.
    pub open spec fn with_register(self, x: int, value: u8) -> Machine {
        Machine { registers: self.registers.update(x, value), ..self }
    }

    /// This machine with `flag` in `VF` and then `value` in register `x`:
    /// where `x` is `0xF`, the value stays.
    pub open spec fn with_flag_then_register(self, flag: u8, x: int, value: u8) -> Machine {
        Machine { registers: self.registers.update(0xF, flag).update(x, value), ..self }
    }

    /// This machine with `value` in register `x` and then `flag` in `VF`:
    /// where `x` is `0xF`, the flag stays.
    pub open spec fn with_register_then_flag(self, x: int, value: u8, flag: u8) -> Machine {
        Machine { registers: self.registers.update(x, value).update(0xF, flag), ..self }
    }

    /// The `n` sprite rows that start at `I`.
    pub open spec fn sprite_at_index(self, n: int) -> Seq<u8> {
        self.memory.subrange(self.index, self.index + n)
    }

    /// The memory after registers `V0..=Vx` are stored at `I..=I + x`.
    pub open spec fn registers_stored(self, x: int) -> Seq<u8> {
        Seq::new(
            MEMORY_SIZE as nat,
            |a: int|
                if self.index <= a <= self.index + x {
                    self.registers[a - self.index]
                } else {
                    self.memory[a]
                },
        )
    }

    /// The registers after `V0..=Vx` are loaded from `I..=I + x`.
    pub open spec fn registers_loaded(self, x: int) -> Seq<u8> {
        Seq::new(
            16,
            |r: int|
                if r <= x {
                    self.memory[self.index + r]
                } else {
                    self.registers[r]
                },
        )
    }

    /// The effect of one instruction on the machine after the fetch, with
    /// `random` as the byte that a `Cxnn` draws. An error leaves the machine
    /// as it is.
    pub open spec fn execute(self, instr: Instruction, random: u8) -> Result<Machine, Chip8Error> {
        let v = self.registers;
        match instr {
            Instruction::ClearScreen => Ok(
                Machine { screen: Seq::new(DISPLAY_CELLS as nat, |c: int| 0u8), ..self },
            ),
            Instruction::Return => if self.stack.len() == 0 {
                Err(Chip8Error::StackUnderflow)
            } else {
                Ok(Machine { pc: self.stack.last(), stack: self.stack.drop_last(), ..self })
            },
            Instruction::Jump { addr } => Ok(Machine { pc: addr as int, ..self }),
            Instruction::Call { addr } => if self.stack.len() >= STACK_DEPTH {
                Err(Chip8Error::StackOverflow)
            } else {
                Ok(Machine { pc: addr as int, stack: self.stack.push(self.pc), ..self })
            },
            Instruction::SkipEqImm { x, nn } => Ok(self.skip_if(v[x as int] == nn)),
            Instruction::SkipNeImm { x, nn } => Ok(self.skip_if(v[x as int] != nn)),
            Instruction::SkipEqReg { x, y } => Ok(self.skip_if(v[x as int] == v[y as int])),
            Instruction::LoadImm { x, nn } => Ok(self.with_register(x as int, nn)),
            Instruction::AddImm { x, nn } => Ok(
                self.with_register(x as int, ((v[x as int] + nn) % 256) as u8),
            ),
            Instruction::Move { x, y } => Ok(self.with_register(x as int, v[y as int])),
            Instruction::Or { x, y } => Ok(self.with_register(x as int, v[x as int] | v[y as int])),
            Instruction::And { x, y } => Ok(
                self.with_register(x as int, v[x as int] & v[y as int]),
            ),
            Instruction::Xor { x, y } => Ok(
                self.with_register(x as int, v[x as int] ^ v[y as int]),
            ),
            Instruction::AddReg { x, y } => Ok(
                self.with_register_then_flag(
                    x as int,
                    ((v[x as int] + v[y as int]) % 256) as u8,
                    if v[x as int] + v[y as int] > 255 {
                        1
                    } else {
                        0
                    },
                ),
            ),
            Instruction::Sub { x, y } => Ok(
                self.with_flag_then_register(
                    if v[x as int] > v[y as int] {
                        1
                    } else {
                        0
                    },
                    x as int,
                    ((v[x as int] - v[y as int]) % 256) as u8,
                ),
            ),
            Instruction::ShiftRight { x } => Ok(
                self.with_flag_then_register(v[x as int] % 2, x as int, v[x as int] / 2),
            ),
            Instruction::SubFrom { x, y } => Ok(
                self.with_flag_then_register(
                    if v[y as int] > v[x as int] {
                        1
                    } else {
                        0
                    },
                    x as int,
                    ((v[y as int] - v[x as int]) % 256) as u8,
                ),
            ),
            Instruction::ShiftLeft { x } => Ok(
                self.with_flag_then_register(
                    v[x as int] / 128,
                    x as int,
                    ((v[x as int] * 2) % 256) as u8,
                ),
            ),
            Instruction::SkipNeReg { x, y } => Ok(self.skip_if(v[x as int] != v[y as int])),
            Instruction::LoadIndex { addr } => Ok(Machine { index: addr as int, ..self }),
            Instruction::JumpOffset { addr } => Ok(Machine { pc: addr + v[0], ..self }),
            Instruction::Random { x, nn } => Ok(self.with_register(x as int, random & nn)),
            Instruction::Draw { x, y, n } => if self.index + n > MEMORY_SIZE {
                Err(Chip8Error::MemoryReadOutOfBounds)
            } else {
                let vx = v[x as int] as int;
                let vy = v[y as int] as int;
                let sprite = self.sprite_at_index(n as int);
                Ok(
                    Machine {
                        screen: sprite_drawn(self.screen, sprite, vx, vy),
                        registers: v.update(
                            0xF,
                            if sprite_collides(self.screen, sprite, vx, vy) {
                                1
                            } else {
                                0
                            },
                        ),
                        ..self
                    },
                )
            },
            Instruction::SkipKeyDown { x } => Ok(self.skip_if(self.keys[(v[x as int] % 16) as int])),
            Instruction::SkipKeyUp { x } => Ok(self.skip_if(!self.keys[(v[x as int] % 16) as int])),
            Instruction::ReadDelay { x } => Ok(self.with_register(x as int, self.delay_timer)),
            Instruction::WaitKey { x } => if any_pressed(self.keys) {
                Ok(
                    Machine {
                        registers: v.update(x as int, first_pressed(self.keys) as u8),
                        waiting: false,
                        ..self
                    },
                )
            } else {
                Ok(
                    Machine {
                        pc: if self.waiting {
                            self.pc
                        } else {
                            self.pc - 2
                        },
                        waiting: true,
                        ..self
                    },
                )
            },
            Instruction::SetDelay { x } => Ok(Machine { delay_timer: v[x as int], ..self }),
            Instruction::SetSound { x } => Ok(Machine { sound_timer: v[x as int], ..self }),
            Instruction::AddIndex { x } => Ok(
                Machine { index: (self.index + v[x as int]) % 0x1000, ..self },
            ),
            Instruction::FontGlyph { x } => Ok(
                Machine { index: FONT_BASE + GLYPH_BYTES * (v[x as int] % 16), ..self },
            ),
            Instruction::StoreBcd { x } => if self.index + 2 >= MEMORY_SIZE {
                Err(Chip8Error::MemoryWriteOutOfBounds)
            } else {
                Ok(
                    Machine {
                        memory: self.memory.update(self.index, v[x as int] / 100).update(
                            self.index + 1,
                            (v[x as int] / 10) % 10,
                        ).update(self.index + 2, v[x as int] % 10),
                        ..self
                    },
                )
            },
            Instruction::StoreRegs { x } => if self.index + x >= MEMORY_SIZE {
                Err(Chip8Error::MemoryWriteOutOfBounds)
            } else {
                Ok(Machine { memory: self.registers_stored(x as int), ..self })
            },
            Instruction::LoadRegs { x } => if self.index + x >= MEMORY_SIZE {
                Err(Chip8Error::MemoryReadOutOfBounds)
            } else {
                Ok(Machine { registers: self.registers_loaded(x as int), ..self })
            },
            Instruction::Unrecognized { word } => Ok(self),
        }
    }

    /// One cycle: fetch the instruction at the program counter, move the
    /// program counter past it unless the machine is blocked, and execute
    /// it. An error leaves the machine as it is.
    pub open spec fn step(self, random: u8) -> Result<Machine, Chip8Error> {
        if !self.can_fetch() {
            Err(Chip8Error::FetchOutOfBounds)
        } else {
            self.after_fetch().execute(self.current_instruction(), random)
        }
    }

    /// As many cycles as `randoms` is long, cycle `k` drawing `randoms[k]`,
    /// up to the first error: the machine that was reached, and the error
    /// that stopped the run, if one did.
    pub open spec fn run(self, randoms: Seq<u8>) -> (Machine, Option<Chip8Error>)
        decreases randoms.len(),
    {
        if randoms.len() == 0 {
            (self, None)
        } else {
            let (reached, stopped) = self.run(randoms.drop_last());
            if stopped is Some {
                (reached, stopped)
            } else {
                match reached.step(randoms.last()) {
                    Ok(next) => (next, None),
                    Err(e) => (reached, Some(e)),
                }
            }
        }
    }

    /// A run that an error has stopped after `k` cycles stays as it is,
    /// whatever bytes the later cycles would have drawn.
    pub proof fn lemma_run_stops(self, randoms: Seq<u8>, k: int)
        requires
            0 <= k <= randoms.len(),
            self.run(randoms.take(k)).1 is Some,
        ensures
            self.run(randoms) == self.run(randoms.take(k)),
        decreases randoms.len() - k,
    {
        if k < randoms.len() {
            assert(randoms.take(k + 1).drop_last() =~= randoms.take(k));
            self.lemma_run_stops(randoms, k + 1);
        } else {
            assert(randoms.take(k) =~= randoms);
        }
    }
}

} // verus!
