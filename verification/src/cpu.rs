//! The interpreter: the machine state in its fixed-size representation and
//! the operations of the host on it.

use crate::bits::{lemma_shift_left, lemma_shift_right, lemma_word};
use crate::display::draw_sprite;
use crate::error::Chip8Error;
use crate::instruction::{decode, Instruction};
use crate::model::{
    any_pressed, is_first_pressed, lemma_first_pressed, sprite_collides, sprite_drawn, Machine,
    FONT_BASE, GLYPH_BYTES, MAX_ROM_SIZE,
};
use crate::random::random_byte;
use vstd::prelude::*;

verus! {

/// Whether `after` and `res` are what executing `instr` on `before` gives:
/// the next machine, or the error and the machine unchanged.
spec fn executes_to(
    before: Machine,
    instr: Instruction,
    random: u8,
    after: Machine,
    res: Result<(), Chip8Error>,
) -> bool {
    match before.execute(instr, random) {
        Ok(next) => res is Ok && after == next,
        Err(e) => res == Err::<(), Chip8Error>(e) && after == before,
    }
}

/// Whether `after` and `res` are what one cycle of `before` gives when a
/// `Cxnn` draws `random`: the next machine and the instruction that was
/// executed, or the error and the machine unchanged.
pub open spec fn steps_to(
    before: Machine,
    random: u8,
    after: Machine,
    res: Result<Instruction, Chip8Error>,
) -> bool {
    match before.step(random) {
        Ok(next) => res == Ok::<Instruction, Chip8Error>(before.current_instruction()) && after
            == next,
        Err(e) => res == Err::<Instruction, Chip8Error>(e) && after == before,
    }
}

/// Whether `res` is what a run from `start` gives when cycle `k` draws
/// `randoms[k]`: the machine that was reached, or the error that stopped
/// the run.
pub open spec fn runs_to(start: Machine, randoms: Seq<u8>, res: Result<CPU, Chip8Error>) -> bool {
    match start.run(randoms).1 {
        None => res matches Ok(cpu) && cpu@ == start.run(randoms).0,
        Some(e) => res matches Err(err) && err == e,
    }
}

/// The interpreter: the whole state of one machine, changed only by the
/// methods below. In contracts it stands for its [`Machine`], `self@`.
#[derive(Debug, PartialEq, Eq)]
pub struct CPU {
    screen: [u8; 2048],
    waiting: bool,
    memory: [u8; 4096],
    keyboard: [bool; 16],
    stack: [u16; 16],
    delay_timer: u8,
    sound_timer: u8,
    registers: [u8; 16],
    i: u16,
    pc: u16,
    stack_pointer: u8,
}

impl View for CPU {
    type V = Machine;

    closed spec fn view(&self) -> Machine {
        Machine {
            memory: self.memory@,
            registers: self.registers@,
            index: self.i as int,
            pc: self.pc as int,
            stack: Seq::new(self.stack_pointer as nat, |k: int| self.stack[k] as int),
            delay_timer: self.delay_timer,
            sound_timer: self.sound_timer,
            keys: self.keyboard@,
            screen: self.screen@,
            waiting: self.waiting,
        }
    }
}

impl CPU {
    /// Pixels in a row of the display.
    pub const DISPLAY_WIDTH: usize = 64;

    /// Rows of the display.
    pub const DISPLAY_HEIGHT: usize = 32;

    /// What holds of the fields between calls: the stack pointer counts the
    /// entries in use, `I` is a twelve-bit address and every cell of the
    /// framebuffer is `0` or `1`.
    #[verifier::type_invariant]
    spec fn inv(self) -> bool {
        &&& self.stack_pointer <= 16
        &&& self.i <= 0xFFF
        &&& forall|c: int| 0 <= c < 2048 ==> #[trigger] self.screen[c] <= 1
    }

    /// A machine with everything zero, no key down, a dark display and the
    /// program counter at the program start.
    pub fn new() -> (cpu: CPU)
        ensures
            cpu@ == Machine::initial(),
            cpu@.wf(),
    {
        let cpu = CPU {
            screen: [0u8; 2048],
            waiting: false,
            memory: [0u8; 4096],
            keyboard: [false; 16],
            stack: [0u16; 16],
            delay_timer: 0,
            sound_timer: 0,
            registers: [0u8; 16],
            i: 0,
            pc: 0x200,
            stack_pointer: 0,
        };
        proof {
            cpu@.lemma_equal(Machine::initial());
        }
        cpu
    }

    /// Returns the machine to its initial state, but for memory, which
    /// keeps the program.
    pub fn reset(&mut self)
        ensures
            final(self)@ == old(self)@.reset(),
            final(self)@.wf(),
    {
        proof {
            use_type_invariant(&*self);
        }
        self.registers = [0u8; 16];
        self.stack = [0u16; 16];
        self.keyboard = [false; 16];
        self.delay_timer = 0;
        self.sound_timer = 0;
        self.i = 0;
        self.pc = 0x200;
        self.stack_pointer = 0;
        self.waiting = false;
        self.cls();
        proof {
            use_type_invariant(&*self);
            self@.lemma_equal(old(self)@.reset());
        }
    }

    /// Darkens every pixel.
    fn cls(&mut self)
        ensures
            final(self)@ == (Machine { screen: Seq::new(2048, |c: int| 0u8), ..old(self)@ }),
    {
        proof {
            use_type_invariant(&*self);
        }
        self.screen = [0u8; 2048];
        proof {
            self@.lemma_equal(Machine { screen: Seq::new(2048, |c: int| 0u8), ..old(self)@ });
        }
    }

    /// Replaces memory by an image that holds `rom` from the program start
    /// on and zero everywhere else. A program of more than `MAX_ROM_SIZE`
    /// bytes is refused, and memory stays as it is.
    pub fn load_rom(&mut self, rom: &[u8]) -> (res: Result<(), Chip8Error>)
        ensures
            rom@.len() <= MAX_ROM_SIZE ==> res == Ok::<(), Chip8Error>(()) && final(self)@ == old(
                self,
            )@.load_rom(rom@),
            rom@.len() > MAX_ROM_SIZE ==> res == Err::<(), Chip8Error>(Chip8Error::RomTooLarge)
                && final(self)@ == old(self)@,
            final(self)@.wf(),
    {
        proof {
            use_type_invariant(&*self);
        }
        if rom.len() > MAX_ROM_SIZE {
            return Err(Chip8Error::RomTooLarge);
        }
        let mut image = [0u8; 4096];
        let mut k: usize = 0;
        while k < rom.len()
            invariant
                k <= rom@.len() <= MAX_ROM_SIZE,
                forall|a: int|
                    0 <= a < 4096 ==> image[a] == if 0x200 <= a < 0x200 + k {
                        rom@[a - 0x200]
                    } else {
                        0u8
                    },
            decreases rom@.len() - k,
        {
            image[0x200 + k] = rom[k];
            k = k + 1;
        }
        proof {
            use_type_invariant(&*self);
        }
        self.memory = image;
        proof {
            self@.lemma_equal(old(self)@.load_rom(rom@));
        }
        Ok(())
    }

    /// Writes the sixteen five-byte glyphs of `font` from `FONT_BASE` on,
    /// where `Fx29` looks for them. Loading a program replaces all of
    /// memory, so the font is written after the program.
    pub fn load_font(&mut self, font: &[u8; 80])
        ensures
            final(self)@ == old(self)@.load_font(font@),
            final(self)@.wf(),
    {
        proof {
            use_type_invariant(&*self);
        }
        let mut image = self.memory;
        let mut k: usize = 0;
        while k < 80
            invariant
                k <= 80,
                forall|a: int|
                    0 <= a < 4096 ==> image[a] == if a < k {
                        font[a]
                    } else {
                        self.memory[a]
                    },
            decreases 80 - k,
        {
            image[k] = font[k];
            k = k + 1;
        }
        self.memory = image;
        proof {
            self@.lemma_equal(old(self)@.load_font(font@));
        }
    }

    /// Records that key `index` went down or up. An index above `0xF`
    /// names no key and is refused.
    pub fn set_key(&mut self, index: u8, pressed: bool) -> (res: Result<(), Chip8Error>)
        ensures
            index < 16 ==> res == Ok::<(), Chip8Error>(()) && final(self)@ == old(self)@.set_key(
                index as int,
                pressed,
            ),
            index >= 16 ==> res == Err::<(), Chip8Error>(Chip8Error::InvalidKey) && final(self)@
                == old(self)@,
            final(self)@.wf(),
    {
        proof {
            use_type_invariant(&*self);
        }
        if index >= 16 {
            return Err(Chip8Error::InvalidKey);
        }
        self.keyboard[index as usize] = pressed;
        proof {
            self@.lemma_equal(old(self)@.set_key(index as int, pressed));
        }
        Ok(())
    }

    /// Lowers each timer that is above zero by one: the host calls this at
    /// 60 Hz.
    pub fn tick_timers(&mut self)
        ensures
            final(self)@ == old(self)@.tick_timers(),
            final(self)@.wf(),
    {
        proof {
            use_type_invariant(&*self);
        }
        if self.delay_timer > 0 {
            self.delay_timer = self.delay_timer - 1;
        }
        if self.sound_timer > 0 {
            self.sound_timer = self.sound_timer - 1;
        }
        proof {
            self@.lemma_equal(old(self)@.tick_timers());
        }
    }

    /// The framebuffer, row after row, one cell per pixel: `1` is lit.
    pub fn framebuffer(&self) -> (cells: &[u8; 2048])
        ensures
            cells@ == self@.screen,
            forall|c: int| 0 <= c < 2048 ==> #[trigger] cells[c] <= 1,
    {
        proof {
            use_type_invariant(self);
        }
        &self.screen
    }

    /// The sound timer: the host sounds a tone while it is above zero.
    pub fn sound_timer(&self) -> (value: u8)
        ensures
            value == self@.sound_timer,
    {
        self.sound_timer
    }

    /// The delay timer.
    pub fn delay_timer(&self) -> (value: u8)
        ensures
            value == self@.delay_timer,
    {
        self.delay_timer
    }

    /// The registers `V0..=VF`.
    pub fn registers(&self) -> (values: &[u8; 16])
        ensures
            values@ == self@.registers,
    {
        &self.registers
    }

    /// The 4096 bytes of memory.
    pub fn memory(&self) -> (bytes: &[u8; 4096])
        ensures
            bytes@ == self@.memory,
    {
        &self.memory
    }

    /// The index register `I`.
    pub fn index(&self) -> (addr: u16)
        ensures
            addr == self@.index,
            addr <= 0xFFF,
    {
        proof {
            use_type_invariant(self);
        }
        self.i
    }

    /// The program counter.
    pub fn pc(&self) -> (addr: u16)
        ensures
            addr == self@.pc,
    {
        self.pc
    }

    /// The stack pointer: how many calls are in progress.
    pub fn stack_pointer(&self) -> (depth: u8)
        ensures
            depth == self@.stack.len(),
            depth <= 16,
    {
        proof {
            use_type_invariant(self);
        }
        self.stack_pointer
    }

    /// Whether the machine is blocked in a key wait.
    pub fn is_waiting(&self) -> (blocked: bool)
        ensures
            blocked == self@.waiting,
    {
        self.waiting
    }

    /// Skips the next instruction if `condition` holds.
    fn skip_if(&mut self, condition: bool)
        requires
            old(self)@.pc <= 0xFFFD,
        ensures
            final(self)@ == old(self)@.skip_if(condition),
    {
        proof {
            use_type_invariant(&*self);
        }
        if condition {
            self.pc = self.pc + 2;
        }
        proof {
            self@.lemma_equal(old(self)@.skip_if(condition));
        }
    }

    /// Writes `value` to register `x`.
    fn set_register(&mut self, x: u8, value: u8)
        requires
            x < 16,
        ensures
            final(self)@ == old(self)@.with_register(x as int, value),
    {
        proof {
            use_type_invariant(&*self);
        }
        self.registers[x as usize] = value;
        proof {
            self@.lemma_equal(old(self)@.with_register(x as int, value));
        }
    }

    /// Writes `flag` to `VF`, then `value` to register `x`.
    fn set_flag_then_register(&mut self, flag: u8, x: u8, value: u8)
        requires
            x < 16,
        ensures
            final(self)@ == old(self)@.with_flag_then_register(flag, x as int, value),
    {
        proof {
            use_type_invariant(&*self);
        }
        self.registers[0xF] = flag;
        self.registers[x as usize] = value;
        proof {
            self@.lemma_equal(old(self)@.with_flag_then_register(flag, x as int, value));
        }
    }

    /// Writes `value` to register `x`, then `flag` to `VF`.
    fn set_register_then_flag(&mut self, x: u8, value: u8, flag: u8)
        requires
            x < 16,
        ensures
            final(self)@ == old(self)@.with_register_then_flag(x as int, value, flag),
    {
        proof {
            use_type_invariant(&*self);
        }
        self.registers[x as usize] = value;
        self.registers[0xF] = flag;
        proof {
            self@.lemma_equal(old(self)@.with_register_then_flag(x as int, value, flag));
        }
    }

    /// Continues at `target`.
    fn jump(&mut self, target: u16)
        ensures
            final(self)@ == (Machine { pc: target as int, ..old(self)@ }),
    {
        proof {
            use_type_invariant(&*self);
        }
        self.pc = target;
        proof {
            self@.lemma_equal(Machine { pc: target as int, ..old(self)@ });
        }
    }

    /// Points `I` at `addr`.
    fn set_index(&mut self, addr: u16)
        requires
            addr <= 0xFFF,
        ensures
            final(self)@ == (Machine { index: addr as int, ..old(self)@ }),
    {
        proof {
            use_type_invariant(&*self);
        }
        self.i = addr;
        proof {
            self@.lemma_equal(Machine { index: addr as int, ..old(self)@ });
        }
    }

    /// Pops the innermost return address into the program counter.
    fn ret(&mut self) -> (res: Result<(), Chip8Error>)
        ensures
            executes_to(old(self)@, Instruction::Return, 0, final(self)@, res),
    {
        proof {
            use_type_invariant(&*self);
        }
        if self.stack_pointer == 0 {
            return Err(Chip8Error::StackUnderflow);
        }
        self.stack_pointer = self.stack_pointer - 1;
        self.pc = self.stack[self.stack_pointer as usize];
        proof {
            self@.lemma_equal(
                Machine {
                    pc: old(self)@.stack.last(),
                    stack: old(self)@.stack.drop_last(),
                    ..old(self)@
                },
            );
        }
        Ok(())
    }

    /// Pushes the program counter and continues at `addr`.
    fn call(&mut self, addr: u16) -> (res: Result<(), Chip8Error>)
        ensures
            executes_to(old(self)@, Instruction::Call { addr }, 0, final(self)@, res),
    {
        proof {
            use_type_invariant(&*self);
        }
        if self.stack_pointer >= 16 {
            return Err(Chip8Error::StackOverflow);
        }
        self.stack[self.stack_pointer as usize] = self.pc;
        self.stack_pointer = self.stack_pointer + 1;
        self.pc = addr;
        proof {
            self@.lemma_equal(
                Machine {
                    pc: addr as int,
                    stack: old(self)@.stack.push(old(self)@.pc),
                    ..old(self)@
                },
            );
        }
        Ok(())
    }

    /// The lowest index of a key that is down, if any key is.
    fn first_key_down(&self) -> (found: Option<u8>)
        ensures
            match found {
                Some(k) => is_first_pressed(self@.keys, k as int),
                None => !any_pressed(self@.keys),
            },
    {
        let mut k: u8 = 0;
        while k < 16
            invariant
                k <= 16,
                forall|j: int| 0 <= j < k ==> !self.keyboard[j],
            decreases 16 - k,
        {
            if self.keyboard[k as usize] {
                return Some(k);
            }
            k = k + 1;
        }
        None
    }

    /// Stores the index of the first key that is down in register `x` and
    /// leaves the blocked state; with no key down, enters or stays in the
    /// blocked state with the program counter on this instruction.
    fn wait(&mut self, x: u8)
        requires
            x < 16,
            old(self)@.waiting || old(self)@.pc >= 2,
        ensures
            executes_to(old(self)@, Instruction::WaitKey { x }, 0, final(self)@, Ok(())),
    {
        proof {
            use_type_invariant(&*self);
        }
        match self.first_key_down() {
            Some(k) => {
                proof {
                    lemma_first_pressed(self@.keys, k as int);
                }
                self.registers[x as usize] = k;
                self.waiting = false;
                proof {
                    self@.lemma_equal(
                        Machine {
                            registers: old(self)@.registers.update(x as int, k),
                            waiting: false,
                            ..old(self)@
                        },
                    );
                }
            },
            None => {
                if !self.waiting {
                    self.pc = self.pc - 2;
                    self.waiting = true;
                }
                proof {
                    self@.lemma_equal(
                        Machine {
                            pc: if old(self)@.waiting {
                                old(self)@.pc
                            } else {
                                old(self)@.pc - 2
                            },
                            waiting: true,
                            ..old(self)@
                        },
                    );
                }
            },
        }
    }

    /// Draws the `n`-row sprite at `I` with its corner at (`Vx`, `Vy`) and
    /// sets `VF` to whether a lit pixel went dark.
    fn drw(&mut self, x: u8, y: u8, n: u8) -> (res: Result<(), Chip8Error>)
        requires
            x < 16,
            y < 16,
            n < 16,
        ensures
            executes_to(old(self)@, Instruction::Draw { x, y, n }, 0, final(self)@, res),
    {
        proof {
            use_type_invariant(&*self);
        }
        let index: usize = self.i as usize;
        let rows: usize = n as usize;
        if index + rows > 4096 {
            return Err(Chip8Error::MemoryReadOutOfBounds);
        }
        let vx: usize = self.registers[x as usize] as usize;
        let vy: usize = self.registers[y as usize] as usize;
        let collided = draw_sprite(&mut self.screen, &self.memory, index, rows, vx, vy);
        self.registers[0xF] = if collided {
            1
        } else {
            0
        };
        proof {
            let before = old(self)@;
            let sprite = before.sprite_at_index(n as int);
            self@.lemma_equal(
                Machine {
                    screen: sprite_drawn(before.screen, sprite, vx as int, vy as int),
                    registers: before.registers.update(
                        0xF,
                        if sprite_collides(before.screen, sprite, vx as int, vy as int) {
                            1u8
                        } else {
                            0u8
                        },
                    ),
                    ..before
                },
            );
        }
        Ok(())
    }

    /// Stores the hundreds, tens and ones of `Vx` at `I`, `I + 1`, `I + 2`.
    fn bcd(&mut self, x: u8) -> (res: Result<(), Chip8Error>)
        requires
            x < 16,
        ensures
            executes_to(old(self)@, Instruction::StoreBcd { x }, 0, final(self)@, res),
    {
        proof {
            use_type_invariant(&*self);
        }
        let index: usize = self.i as usize;
        if index + 2 >= 4096 {
            return Err(Chip8Error::MemoryWriteOutOfBounds);
        }
        let value: u8 = self.registers[x as usize];
        self.memory[index] = value / 100;
        self.memory[index + 1] = (value / 10) % 10;
        self.memory[index + 2] = value % 10;
        proof {
            let before = old(self)@;
            self@.lemma_equal(
                Machine {
                    memory: before.memory.update(before.index, value / 100).update(
                        before.index + 1,
                        (value / 10) % 10,
                    ).update(before.index + 2, value % 10),
                    ..before
                },
            );
        }
        Ok(())
    }

    /// Stores `V0..=Vx` at `I..=I + x`.
    fn dump(&mut self, x: u8) -> (res: Result<(), Chip8Error>)
        requires
            x < 16,
        ensures
            executes_to(old(self)@, Instruction::StoreRegs { x }, 0, final(self)@, res),
    {
        proof {
            use_type_invariant(&*self);
        }
        let index: usize = self.i as usize;
        let last: usize = x as usize;
        if index + last >= 4096 {
            return Err(Chip8Error::MemoryWriteOutOfBounds);
        }
        let mut image = self.memory;
        let mut r: usize = 0;
        while r <= last
            invariant
                r <= last + 1,
                last < 16,
                index + last < 4096,
                forall|a: int|
                    0 <= a < 4096 ==> image[a] == if index <= a < index + r {
                        self.registers[a - index]
                    } else {
                        self.memory[a]
                    },
            decreases last + 1 - r,
        {
            image[index + r] = self.registers[r];
            r = r + 1;
        }
        self.memory = image;
        proof {
            let before = old(self)@;
            self@.lemma_equal(Machine { memory: before.registers_stored(x as int), ..before });
        }
        Ok(())
    }

    /// Loads `V0..=Vx` from `I..=I + x`.
    fn load(&mut self, x: u8) -> (res: Result<(), Chip8Error>)
        requires
            x < 16,
        ensures
            executes_to(old(self)@, Instruction::LoadRegs { x }, 0, final(self)@, res),
    {
        proof {
            use_type_invariant(&*self);
        }
        let index: usize = self.i as usize;
        let last: usize = x as usize;
        if index + last >= 4096 {
            return Err(Chip8Error::MemoryReadOutOfBounds);
        }
        let mut values = self.registers;
        let mut r: usize = 0;
        while r <= last
            invariant
                r <= last + 1,
                last < 16,
                index + last < 4096,
                forall|j: int|
                    0 <= j < 16 ==> values[j] == if j < r {
                        self.memory[index + j]
                    } else {
                        self.registers[j]
                    },
            decreases last + 1 - r,
        {
            values[r] = self.memory[index + r];
            r = r + 1;
        }
        self.registers = values;
        proof {
            let before = old(self)@;
            self@.lemma_equal(Machine { registers: before.registers_loaded(x as int), ..before });
        }
        Ok(())
    }

    /// Reads the instruction word at the program counter, high byte first,
    /// and moves the program counter past it unless the machine is blocked
    /// in a key wait. A program counter that leaves no room for two bytes
    /// inside memory is an error, and nothing changes.
    fn fetch(&mut self) -> (res: Result<u16, Chip8Error>)
        ensures
            old(self)@.can_fetch() ==> res == Ok::<u16, Chip8Error>(old(self)@.fetched_word())
                && final(self)@ == old(self)@.after_fetch(),
            !old(self)@.can_fetch() ==> res == Err::<u16, Chip8Error>(
                Chip8Error::FetchOutOfBounds,
            ) && final(self)@ == old(self)@,
    {
        proof {
            use_type_invariant(&*self);
        }
        let at: usize = self.pc as usize;
        if at + 1 >= 4096 {
            return Err(Chip8Error::FetchOutOfBounds);
        }
        let hi: u8 = self.memory[at];
        let lo: u8 = self.memory[at + 1];
        let word: u16 = ((hi as u16) << 8) | (lo as u16);
        proof {
            lemma_word(hi, lo);
        }
        if !self.waiting {
            self.pc = self.pc + 2;
        }
        proof {
            self@.lemma_equal(old(self)@.after_fetch());
        }
        Ok(word)
    }

    /// Applies the effect of `instr` to the machine after the fetch, with
    /// `random` as the byte that a `Cxnn` draws. An error changes nothing.
    fn execute(&mut self, instr: Instruction, random: u8) -> (res: Result<(), Chip8Error>)
        requires
            instr.wf(),
            old(self)@.pc <= 4096,
            old(self)@.waiting || old(self)@.pc >= 2,
        ensures
            executes_to(old(self)@, instr, random, final(self)@, res),
    {
        match instr {
            Instruction::ClearScreen => {
                self.cls();
                Ok(())
            },
            Instruction::Return => self.ret(),
            Instruction::Jump { addr } => {
                self.jump(addr);
                Ok(())
            },
            Instruction::Call { addr } => self.call(addr),
            Instruction::SkipEqImm { x, nn } => {
                let vx: u8 = self.registers[x as usize];
                self.skip_if(vx == nn);
                Ok(())
            },
            Instruction::SkipNeImm { x, nn } => {
                let vx: u8 = self.registers[x as usize];
                self.skip_if(vx != nn);
                Ok(())
            },
            Instruction::SkipEqReg { x, y } => {
                let vx: u8 = self.registers[x as usize];
                let vy: u8 = self.registers[y as usize];
                self.skip_if(vx == vy);
                Ok(())
            },
            Instruction::LoadImm { x, nn } => {
                self.set_register(x, nn);
                Ok(())
            },
            Instruction::AddImm { x, nn } => {
                self.add_imm(x, nn);
                Ok(())
            },
            Instruction::Move { x, y } => {
                let vy: u8 = self.registers[y as usize];
                self.set_register(x, vy);
                Ok(())
            },
            Instruction::Or { x, y } => {
                let vx: u8 = self.registers[x as usize];
                let vy: u8 = self.registers[y as usize];
                self.set_register(x, vx | vy);
                Ok(())
            },
            Instruction::And { x, y } => {
                let vx: u8 = self.registers[x as usize];
                let vy: u8 = self.registers[y as usize];
                self.set_register(x, vx & vy);
                Ok(())
            },
            Instruction::Xor { x, y } => {
                let vx: u8 = self.registers[x as usize];
                let vy: u8 = self.registers[y as usize];
                self.set_register(x, vx ^ vy);
                Ok(())
            },
            Instruction::AddReg { x, y } => {
                self.add_reg(x, y);
                Ok(())
            },
            Instruction::Sub { x, y } => {
                self.sub(x, y);
                Ok(())
            },
            Instruction::ShiftRight { x } => {
                self.shift_right(x);
                Ok(())
            },
            Instruction::SubFrom { x, y } => {
                self.sub_from(x, y);
                Ok(())
            },
            Instruction::ShiftLeft { x } => {
                self.shift_left(x);
                Ok(())
            },
            Instruction::SkipNeReg { x, y } => {
                let vx: u8 = self.registers[x as usize];
                let vy: u8 = self.registers[y as usize];
                self.skip_if(vx != vy);
                Ok(())
            },
            Instruction::LoadIndex { addr } => {
                self.set_index(addr);
                Ok(())
            },
            Instruction::JumpOffset { addr } => {
                let v0: u8 = self.registers[0];
                self.jump(addr + v0 as u16);
                Ok(())
            },
            Instruction::Random { x, nn } => {
                self.set_register(x, random & nn);
                Ok(())
            },
            Instruction::Draw { x, y, n } => self.drw(x, y, n),
            Instruction::SkipKeyDown { x } => {
                let vx: u8 = self.registers[x as usize];
                let down: bool = self.keyboard[(vx % 16) as usize];
                self.skip_if(down);
                Ok(())
            },
            Instruction::SkipKeyUp { x } => {
                let vx: u8 = self.registers[x as usize];
                let down: bool = self.keyboard[(vx % 16) as usize];
                self.skip_if(!down);
                Ok(())
            },
            Instruction::ReadDelay { x } => {
                let timer: u8 = self.delay_timer;
                self.set_register(x, timer);
                Ok(())
            },
            Instruction::WaitKey { x } => {
                self.wait(x);
                Ok(())
            },
            Instruction::SetDelay { x } => {
                let vx: u8 = self.registers[x as usize];
                self.set_delay(vx);
                Ok(())
            },
            Instruction::SetSound { x } => {
                let vx: u8 = self.registers[x as usize];
                self.set_sound(vx);
                Ok(())
            },
            Instruction::AddIndex { x } => {
                self.add_index(x);
                Ok(())
            },
            Instruction::FontGlyph { x } => {
                self.font_glyph(x);
                Ok(())
            },
            Instruction::StoreBcd { x } => self.bcd(x),
            Instruction::StoreRegs { x } => self.dump(x),
            Instruction::LoadRegs { x } => self.load(x),
            Instruction::Unrecognized { word } => Ok(()),
        }
    }

    /// `Vx = Vx + nn` modulo 256; `VF` is left alone.
    fn add_imm(&mut self, x: u8, nn: u8)
        requires
            x < 16,
        ensures
            executes_to(old(self)@, Instruction::AddImm { x, nn }, 0, final(self)@, Ok(())),
    {
        let vx: u8 = self.registers[x as usize];
        let sum: u16 = vx as u16 + nn as u16;
        self.set_register(x, (sum % 256) as u8);
    }

    /// `Vx = Vx + Vy` modulo 256, then `VF` = 1 if the sum passed 255.
    fn add_reg(&mut self, x: u8, y: u8)
        requires
            x < 16,
            y < 16,
        ensures
            executes_to(old(self)@, Instruction::AddReg { x, y }, 0, final(self)@, Ok(())),
    {
        let vx: u8 = self.registers[x as usize];
        let vy: u8 = self.registers[y as usize];
        let sum: u16 = vx as u16 + vy as u16;
        let carry: u8 = if sum > 255 {
            1
        } else {
            0
        };
        self.set_register_then_flag(x, (sum % 256) as u8, carry);
    }

    /// `VF` = 1 if `Vx > Vy`, then `Vx = Vx - Vy` modulo 256.
    fn sub(&mut self, x: u8, y: u8)
        requires
            x < 16,
            y < 16,
        ensures
            executes_to(old(self)@, Instruction::Sub { x, y }, 0, final(self)@, Ok(())),
    {
        let vx: u8 = self.registers[x as usize];
        let vy: u8 = self.registers[y as usize];
        let flag: u8 = if vx > vy {
            1
        } else {
            0
        };
        let difference: u16 = (256 + vx as u16 - vy as u16) % 256;
        self.set_flag_then_register(flag, x, difference as u8);
    }

    /// `VF` = 1 if `Vy > Vx`, then `Vx = Vy - Vx` modulo 256.
    fn sub_from(&mut self, x: u8, y: u8)
        requires
            x < 16,
            y < 16,
        ensures
            executes_to(old(self)@, Instruction::SubFrom { x, y }, 0, final(self)@, Ok(())),
    {
        let vx: u8 = self.registers[x as usize];
        let vy: u8 = self.registers[y as usize];
        let flag: u8 = if vy > vx {
            1
        } else {
            0
        };
        let difference: u16 = (256 + vy as u16 - vx as u16) % 256;
        self.set_flag_then_register(flag, x, difference as u8);
    }

    /// `VF` = lowest bit of `Vx`, then `Vx = Vx >> 1`.
    fn shift_right(&mut self, x: u8)
        requires
            x < 16,
        ensures
            executes_to(old(self)@, Instruction::ShiftRight { x }, 0, final(self)@, Ok(())),
    {
        let vx: u8 = self.registers[x as usize];
        proof {
            lemma_shift_right(vx);
        }
        self.set_flag_then_register(vx & 1, x, vx >> 1);
    }

    /// `VF` = highest bit of `Vx`, then `Vx = Vx << 1` modulo 256.
    fn shift_left(&mut self, x: u8)
        requires
            x < 16,
        ensures
            executes_to(old(self)@, Instruction::ShiftLeft { x }, 0, final(self)@, Ok(())),
    {
        let vx: u8 = self.registers[x as usize];
        proof {
            lemma_shift_left(vx);
        }
        self.set_flag_then_register((vx & 0x80) >> 7, x, vx << 1);
    }

    /// `I = I + Vx`, wrapped into the twelve-bit address space.
    fn add_index(&mut self, x: u8)
        requires
            x < 16,
        ensures
            executes_to(old(self)@, Instruction::AddIndex { x }, 0, final(self)@, Ok(())),
    {
        proof {
            use_type_invariant(&*self);
        }
        let vx: u8 = self.registers[x as usize];
        let sum: u16 = (self.i + vx as u16) % 0x1000;
        self.set_index(sum);
    }

    /// `I` = address of the glyph for the digit in the low four bits of
    /// `Vx`.
    fn font_glyph(&mut self, x: u8)
        requires
            x < 16,
        ensures
            executes_to(old(self)@, Instruction::FontGlyph { x }, 0, final(self)@, Ok(())),
    {
        let vx: u8 = self.registers[x as usize];
        self.set_index(FONT_BASE + GLYPH_BYTES * (vx % 16) as u16);
    }

    /// Sets the delay timer.
    fn set_delay(&mut self, value: u8)
        ensures
            final(self)@ == (Machine { delay_timer: value, ..old(self)@ }),
    {
        proof {
            use_type_invariant(&*self);
        }
        self.delay_timer = value;
        proof {
            self@.lemma_equal(Machine { delay_timer: value, ..old(self)@ });
        }
    }

    /// Sets the sound timer.
    fn set_sound(&mut self, value: u8)
        ensures
            final(self)@ == (Machine { sound_timer: value, ..old(self)@ }),
    {
        proof {
            use_type_invariant(&*self);
        }
        self.sound_timer = value;
        proof {
            self@.lemma_equal(Machine { sound_timer: value, ..old(self)@ });
        }
    }

    /// Executes `instr` after a fetch that found the program counter at
    /// `fetched_at`, and puts the program counter back there if the
    /// instruction fails.
    fn finish(&mut self, instr: Instruction, random: u8, fetched_at: u16) -> (res: Result<
        Instruction,
        Chip8Error,
    >)
        requires
            instr.wf(),
            old(self)@.pc <= 4096,
            old(self)@.waiting || old(self)@.pc >= 2,
        ensures
            match old(self)@.execute(instr, random) {
                Ok(next) => res == Ok::<Instruction, Chip8Error>(instr) && final(self)@ == next,
                Err(e) => res == Err::<Instruction, Chip8Error>(e) && final(self)@ == (Machine {
                    pc: fetched_at as int,
                    ..old(self)@
                }),
            },
    {
        match self.execute(instr, random) {
            Ok(()) => Ok(instr),
            Err(e) => {
                self.jump(fetched_at);
                Err(e)
            },
        }
    }

    /// One cycle in which a `Cxnn` draws `random`: fetches the instruction
    /// at the program counter, decodes and executes it, and returns it. An
    /// unrecognized word has no effect and is returned as such. An error
    /// ends the emulation and leaves the machine as it was before the
    /// cycle.
    pub fn step_with(&mut self, random: u8) -> (res: Result<Instruction, Chip8Error>)
        ensures
            steps_to(old(self)@, random, final(self)@, res),
            final(self)@.wf(),
    {
        let fetched_at: u16 = self.pc;
        let res = match self.fetch() {
            Err(e) => Err(e),
            Ok(word) => {
                let instr = decode(word);
                let res = self.finish(instr, random, fetched_at);
                proof {
                    if res is Err {
                        self@.lemma_equal(old(self)@);
                    }
                }
                res
            },
        };
        proof {
            use_type_invariant(&*self);
        }
        res
    }

    /// One cycle in which a `Cxnn` draws a byte from the random generator:
    /// what `step_with` does for some byte, and for the byte `0` where the
    /// instruction is no `Cxnn`. The generator is asked only for a `Cxnn`.
    pub fn step(&mut self) -> (res: Result<Instruction, Chip8Error>)
        ensures
            exists|random: u8| steps_to(old(self)@, random, final(self)@, res),
            !(old(self)@.can_fetch() && old(self)@.current_instruction() is Random) ==> steps_to(
                old(self)@,
                0,
                final(self)@,
                res,
            ),
            final(self)@.wf(),
    {
        let fetched_at: u16 = self.pc;
        let res = match self.fetch() {
            Err(e) => {
                assert(steps_to(old(self)@, 0, self@, Err(e)));
                Err(e)
            },
            Ok(word) => {
                let instr = decode(word);
                let random: u8 = match instr {
                    Instruction::Random { x, nn } => random_byte(),
                    _ => 0,
                };
                let res = self.finish(instr, random, fetched_at);
                proof {
                    if res is Err {
                        self@.lemma_equal(old(self)@);
                    }
                    assert(steps_to(old(self)@, random, self@, res));
                }
                res
            },
        };
        proof {
            use_type_invariant(&*self);
        }
        res
    }

    /// As many cycles as `randoms` is long, cycle `k` drawing `randoms[k]`,
    /// up to the first error, which is returned; the machine then stays as
    /// it was before the cycle that failed.
    pub fn run_with(&mut self, randoms: &[u8]) -> (res: Result<(), Chip8Error>)
        ensures
            final(self)@ == old(self)@.run(randoms@).0,
            res == match old(self)@.run(randoms@).1 {
                None => Ok::<(), Chip8Error>(()),
                Some(e) => Err::<(), Chip8Error>(e),
            },
            final(self)@.wf(),
    {
        proof {
            use_type_invariant(&*self);
        }
        let mut k: usize = 0;
        while k < randoms.len()
            invariant
                k <= randoms@.len(),
                self@.wf(),
                old(self)@.run(randoms@.take(k as int)) == (self@, None::<Chip8Error>),
            decreases randoms@.len() - k,
        {
            proof {
                assert(randoms@.take(k + 1).drop_last() =~= randoms@.take(k as int));
            }
            match self.step_with(randoms[k]) {
                Ok(_) => {},
                Err(e) => {
                    proof {
                        old(self)@.lemma_run_stops(randoms@, k + 1);
                    }
                    return Err(e);
                },
            }
            k = k + 1;
        }
        proof {
            assert(randoms@.take(k as int) =~= randoms@);
        }
        Ok(())
    }

    /// Loads `rom` into a new machine and runs it for `cycles` cycles, each
    /// `Cxnn` drawing a byte from the random generator: what `run_with`
    /// does from the loaded machine for some bytes. Returns the machine
    /// that was reached, or the error that refused the program or stopped
    /// the run.
    pub fn run(rom: &[u8], cycles: usize) -> (res: Result<CPU, Chip8Error>)
        ensures
            rom@.len() > MAX_ROM_SIZE ==> (res matches Err(e) && e == Chip8Error::RomTooLarge),
            rom@.len() <= MAX_ROM_SIZE ==> exists|randoms: Seq<u8>|
                randoms.len() == cycles && runs_to(
                    Machine::initial().load_rom(rom@),
                    randoms,
                    res,
                ),
            res matches Ok(cpu) ==> cpu@.wf(),
    {
        let mut cpu = CPU::new();
        match cpu.load_rom(rom) {
            Err(e) => {
                return Err(e);
            },
            Ok(()) => {},
        }
        let ghost start = cpu@;
        let ghost mut drawn: Seq<u8> = Seq::empty();
        let mut k: usize = 0;
        while k < cycles
            invariant
                k <= cycles,
                drawn.len() == k,
                rom@.len() <= MAX_ROM_SIZE,
                start == Machine::initial().load_rom(rom@),
                start.run(drawn) == (cpu@, None::<Chip8Error>),
            decreases cycles - k,
        {
            let ghost before = cpu@;
            let stepped = cpu.step();
            proof {
                let random = choose|random: u8| steps_to(before, random, cpu@, stepped);
                let earlier = drawn;
                drawn = drawn.push(random);
                assert(drawn.drop_last() =~= earlier);
            }
            match stepped {
                Ok(_) => {},
                Err(e) => {
                    proof {
                        let all = drawn + Seq::new((cycles - k - 1) as nat, |i: int| 0u8);
                        assert(all.take(k + 1) =~= drawn);
                        start.lemma_run_stops(all, k + 1);
                        assert(runs_to(start, all, Err(e)));
                    }
                    return Err(e);
                },
            }
            k = k + 1;
        }
        proof {
            use_type_invariant(&cpu);
            assert(runs_to(start, drawn, Ok(cpu)));
        }
        Ok(cpu)
    }
}

} // verus!
