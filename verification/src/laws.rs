//! What holds of the machine in every state and for every program, proved
//! over the model that the interpreter's contracts speak of.

use crate::error::Chip8Error;
use crate::instruction::{lemma_decode_wf, Instruction};
use crate::model::{any_pressed, is_first_pressed, lemma_first_pressed, toggled, Machine};
use vstd::prelude::*;

verus! {

/// The initial machine is well formed.
pub proof fn lemma_initial_wf()
    ensures
        Machine::initial().wf(),
{
}

/// Resetting, loading a program or a font, a key event and a timer tick
/// keep a machine well formed.
pub proof fn lemma_host_calls_preserve_wf(s: Machine, bytes: Seq<u8>, key: int, pressed: bool)
    requires
        s.wf(),
    ensures
        s.reset().wf(),
        s.load_rom(bytes).wf(),
        s.load_font(bytes).wf(),
        0 <= key < 16 ==> s.set_key(key, pressed).wf(),
        s.tick_timers().wf(),
{
}

/// Executing a well-formed instruction after a fetch keeps a machine well
/// formed.
pub proof fn lemma_execute_preserves_wf(s: Machine, instr: Instruction, random: u8)
    requires
        s.wf(),
        instr.wf(),
        s.pc <= 4096,
        s.waiting || s.pc >= 2,
    ensures
        s.execute(instr, random) matches Ok(next) ==> next.wf(),
{
    match instr {
        Instruction::Return => {
            if s.stack.len() > 0 {
                assert(0 <= s.stack[s.stack.len() - 1] <= 0xFFFF);
            }
        },
        Instruction::WaitKey { x } => {
            if any_pressed(s.keys) {
                let k = choose|k: int| 0 <= k < s.keys.len() && s.keys[k];
                lemma_lowest_pressed(s.keys, k);
            }
        },
        _ => {},
    }
}

/// Where a key at or below `k` is down, some key is the first one down.
proof fn lemma_lowest_pressed(keys: Seq<bool>, k: int)
    requires
        0 <= k < keys.len(),
        keys[k],
    ensures
        exists|first: int| 0 <= first <= k && is_first_pressed(keys, first),
    decreases k,
{
    if exists|j: int| 0 <= j < k && keys[j] {
        let j = choose|j: int| 0 <= j < k && keys[j];
        lemma_lowest_pressed(keys, j);
    } else {
        assert(is_first_pressed(keys, k));
    }
}

/// One cycle keeps a machine well formed.
pub proof fn lemma_step_preserves_wf(s: Machine, random: u8)
    requires
        s.wf(),
    ensures
        s.step(random) matches Ok(next) ==> next.wf(),
{
    if s.can_fetch() {
        lemma_decode_wf(s.fetched_word());
        lemma_execute_preserves_wf(s.after_fetch(), s.current_instruction(), random);
    }
}

/// A run keeps a machine well formed.
pub proof fn lemma_run_preserves_wf(s: Machine, randoms: Seq<u8>)
    requires
        s.wf(),
    ensures
        s.run(randoms).0.wf(),
    decreases randoms.len(),
{
    if randoms.len() > 0 {
        lemma_run_preserves_wf(s, randoms.drop_last());
        lemma_step_preserves_wf(s.run(randoms.drop_last()).0, randoms.last());
    }
}

/// `7xnn` leaves in `Vx` the sum of `Vx` and `nn` modulo 256 and changes no
/// other register: no flag is set.
pub proof fn lemma_add_imm_wraps(s: Machine, x: u8, nn: u8, random: u8)
    requires
        s.wf(),
        x < 16,
    ensures
        s.execute(Instruction::AddImm { x, nn }, random) matches Ok(next) && {
            &&& next.registers.len() == 16
            &&& next.registers[x as int] == (s.registers[x as int] + nn) % 256
            &&& forall|r: int| 0 <= r < 16 && r != x ==> next.registers[r] == s.registers[r]
        },
{
}

/// `8xy4` leaves in `VF` exactly 1 if the sum of `Vx` and `Vy` is above 255
/// and exactly 0 if not, whatever `x` is, and in any other `Vx` the sum
/// modulo 256.
pub proof fn lemma_add_reg_carry(s: Machine, x: u8, y: u8, random: u8)
    requires
        s.wf(),
        x < 16,
        y < 16,
    ensures
        s.execute(Instruction::AddReg { x, y }, random) matches Ok(next) && {
            &&& next.registers.len() == 16
            &&& next.registers[0xF] == if s.registers[x as int] + s.registers[y as int] > 255 {
                1u8
            } else {
                0u8
            }
            &&& x != 0xF ==> next.registers[x as int] == (s.registers[x as int]
                + s.registers[y as int]) % 256
        },
{
}

/// `8xy5` leaves in `Vx` the difference of `Vx` and `Vy` modulo 256,
/// whatever `x` is, and in `VF`, where `x` is not `0xF`, exactly 1 if `Vx`
/// was above `Vy` and exactly 0 if not.
pub proof fn lemma_sub_borrow(s: Machine, x: u8, y: u8, random: u8)
    requires
        s.wf(),
        x < 16,
        y < 16,
    ensures
        s.execute(Instruction::Sub { x, y }, random) matches Ok(next) && {
            &&& next.registers.len() == 16
            &&& next.registers[x as int] == (s.registers[x as int] - s.registers[y as int]) % 256
            &&& x != 0xF ==> next.registers[0xF] == if s.registers[x as int]
                > s.registers[y as int] {
                1u8
            } else {
                0u8
            }
        },
{
}

/// `8xy7` leaves in `Vx` the difference of `Vy` and `Vx` modulo 256,
/// whatever `x` is, and in `VF`, where `x` is not `0xF`, exactly 1 if `Vy`
/// was above `Vx` and exactly 0 if not.
pub proof fn lemma_sub_from_borrow(s: Machine, x: u8, y: u8, random: u8)
    requires
        s.wf(),
        x < 16,
        y < 16,
    ensures
        s.execute(Instruction::SubFrom { x, y }, random) matches Ok(next) && {
            &&& next.registers.len() == 16
            &&& next.registers[x as int] == (s.registers[y as int] - s.registers[x as int]) % 256
            &&& x != 0xF ==> next.registers[0xF] == if s.registers[y as int]
                > s.registers[x as int] {
                1u8
            } else {
                0u8
            }
        },
{
}

/// `8xy6` leaves in `Vx` half of `Vx`, whatever `x` is, and in `VF`, where
/// `x` is not `0xF`, the bit that was shifted out: exactly 0 or 1.
pub proof fn lemma_shift_right_flag(s: Machine, x: u8, random: u8)
    requires
        s.wf(),
        x < 16,
    ensures
        s.execute(Instruction::ShiftRight { x }, random) matches Ok(next) && {
            &&& next.registers.len() == 16
            &&& next.registers[x as int] == s.registers[x as int] / 2
            &&& x != 0xF ==> next.registers[0xF] == s.registers[x as int] % 2
            &&& x != 0xF ==> next.registers[0xF] <= 1
        },
{
}

/// `8xyE` leaves in `Vx` twice `Vx` modulo 256, whatever `x` is, and in
/// `VF`, where `x` is not `0xF`, the bit that was shifted out: exactly 0 or
/// 1.
pub proof fn lemma_shift_left_flag(s: Machine, x: u8, random: u8)
    requires
        s.wf(),
        x < 16,
    ensures
        s.execute(Instruction::ShiftLeft { x }, random) matches Ok(next) && {
            &&& next.registers.len() == 16
            &&& next.registers[x as int] == (s.registers[x as int] * 2) % 256
            &&& x != 0xF ==> next.registers[0xF] == s.registers[x as int] / 128
            &&& x != 0xF ==> next.registers[0xF] <= 1
        },
{
}

/// Storing `V0..=Vx` with `Fx55` and loading them back with `Fx65`, with
/// the same `x` and `I` and with the stored bytes untouched in between,
/// restores `V0..=Vx`, whatever the registers held in between, and changes
/// no other register.
pub proof fn lemma_store_then_load_restores(s: Machine, between: Machine, x: u8, random: u8)
    requires
        s.wf(),
        between.wf(),
        x < 16,
        s.execute(Instruction::StoreRegs { x }, random) is Ok,
        between.index == s.index,
        forall|a: int|
            s.index <= a <= s.index + x ==> between.memory[a] == s.execute(
                Instruction::StoreRegs { x },
                random,
            )->Ok_0.memory[a],
    ensures
        between.execute(Instruction::LoadRegs { x }, random) matches Ok(loaded) && {
            &&& loaded.registers.len() == 16
            &&& forall|r: int| 0 <= r <= x ==> loaded.registers[r] == s.registers[r]
            &&& forall|r: int| x < r < 16 ==> loaded.registers[r] == between.registers[r]
        },
{
}

/// `Fx65` right after `Fx55` with the same `x` changes nothing.
pub proof fn lemma_store_then_load_is_identity(s: Machine, x: u8, random: u8)
    requires
        s.wf(),
        x < 16,
    ensures
        s.execute(Instruction::StoreRegs { x }, random) matches Ok(stored) ==> stored.execute(
            Instruction::LoadRegs { x },
            random,
        ) == Ok::<Machine, Chip8Error>(stored),
{
    if s.execute(Instruction::StoreRegs { x }, random) is Ok {
        let stored = s.execute(Instruction::StoreRegs { x }, random)->Ok_0;
        let loaded = stored.execute(Instruction::LoadRegs { x }, random)->Ok_0;
        loaded.lemma_equal(stored);
    }
}

/// A machine that is reset and then loaded with a program is the machine
/// that a new one loaded with that program is: their runs agree in every
/// cycle, given the same random bytes.
pub proof fn lemma_reset_then_load_is_fresh(s: Machine, rom: Seq<u8>, randoms: Seq<u8>)
    ensures
        s.reset().load_rom(rom) == Machine::initial().load_rom(rom),
        s.reset().load_rom(rom).run(randoms) == Machine::initial().load_rom(rom).run(randoms),
{
    s.reset().load_rom(rom).lemma_equal(Machine::initial().load_rom(rom));
}

/// A call succeeds exactly while fewer than sixteen calls are in progress:
/// the seventeenth nested call is a stack overflow.
pub proof fn lemma_call_depth(s: Machine, addr: u16, random: u8)
    requires
        s.wf(),
    ensures
        s.stack.len() < 16 ==> (s.execute(Instruction::Call { addr }, random) matches Ok(called)
            && called.stack.len() == s.stack.len() + 1 && called.pc == addr),
        s.stack.len() == 16 ==> s.execute(Instruction::Call { addr }, random) == Err::<
            Machine,
            Chip8Error,
        >(Chip8Error::StackOverflow),
{
}

/// A cycle that fetches a call with sixteen calls in progress ends in a
/// stack overflow.
pub proof fn lemma_call_overflow_step(s: Machine, addr: u16, random: u8)
    requires
        s.wf(),
        s.can_fetch(),
        s.current_instruction() == (Instruction::Call { addr }),
        s.stack.len() == 16,
    ensures
        s.step(random) == Err::<Machine, Chip8Error>(Chip8Error::StackOverflow),
{
}

/// A return succeeds exactly while a call is in progress: with none, it is
/// a stack underflow.
pub proof fn lemma_return_depth(s: Machine, random: u8)
    requires
        s.wf(),
    ensures
        s.stack.len() > 0 ==> (s.execute(Instruction::Return, random) matches Ok(back)
            && back.stack.len() == s.stack.len() - 1 && back.pc == s.stack.last()),
        s.stack.len() == 0 ==> s.execute(Instruction::Return, random) == Err::<
            Machine,
            Chip8Error,
        >(Chip8Error::StackUnderflow),
{
}

/// A return from a subroutine that left the stack as its call had made it
/// puts the program counter and the stack back to what they were when the
/// call was executed, whatever else the subroutine did.
pub proof fn lemma_call_then_return(s: Machine, inner: Machine, addr: u16, random: u8)
    requires
        s.wf(),
        s.stack.len() < 16,
        inner.stack == s.execute(Instruction::Call { addr }, random)->Ok_0.stack,
    ensures
        inner.execute(Instruction::Return, random) matches Ok(back) && back.pc == s.pc
            && back.stack == s.stack,
{
    let called = s.execute(Instruction::Call { addr }, random)->Ok_0;
    assert(called.stack.drop_last() =~= s.stack);
}

/// The cycle of a call and the cycle of a return that follows it at once
/// leave the machine as it was after the fetch of the call: the program
/// counter on the instruction behind the call, the stack pointer and
/// everything else as before.
pub proof fn lemma_call_return_cycles(s: Machine, addr: u16, first: u8, second: u8)
    requires
        s.wf(),
        s.can_fetch(),
        s.current_instruction() == (Instruction::Call { addr }),
        s.stack.len() < 16,
        s.step(first)->Ok_0.can_fetch(),
        s.step(first)->Ok_0.current_instruction() == Instruction::Return,
    ensures
        s.step(first) matches Ok(called) && called.step(second) == Ok::<Machine, Chip8Error>(
            s.after_fetch(),
        ),
{
    let called = s.step(first)->Ok_0;
    let back = called.step(second)->Ok_0;
    assert(called.stack.drop_last() =~= s.stack);
    back.lemma_equal(s.after_fetch());
}

/// A cycle of `3xnn` moves the program counter by four if `Vx` is `nn`
/// and by two if not, and changes nothing else.
pub proof fn lemma_skip_advances(s: Machine, x: u8, nn: u8, random: u8)
    requires
        s.wf(),
        !s.waiting,
        s.can_fetch(),
        s.current_instruction() == (Instruction::SkipEqImm { x, nn }),
    ensures
        s.step(random) == Ok::<Machine, Chip8Error>(
            Machine {
                pc: if s.registers[x as int] == nn {
                    s.pc + 4
                } else {
                    s.pc + 2
                },
                ..s
            },
        ),
{
}

/// A cycle of `Fx0A` with no key down leaves the machine blocked with the
/// program counter where it was, and changes nothing else, however often it
/// is repeated.
pub proof fn lemma_key_wait_blocks(s: Machine, x: u8, random: u8)
    requires
        s.wf(),
        s.can_fetch(),
        s.current_instruction() == (Instruction::WaitKey { x }),
        !any_pressed(s.keys),
    ensures
        s.step(random) == Ok::<Machine, Chip8Error>(Machine { waiting: true, ..s }),
{
}

/// A cycle of `Fx0A` with key `k` the first one down stores `k` in `Vx` and
/// leaves the machine unblocked; a blocked machine keeps its program
/// counter in that cycle and moves on with the next fetch.
pub proof fn lemma_key_wait_resumes(s: Machine, x: u8, k: int, random: u8)
    requires
        s.wf(),
        s.can_fetch(),
        s.current_instruction() == (Instruction::WaitKey { x }),
        is_first_pressed(s.keys, k),
    ensures
        s.step(random) == Ok::<Machine, Chip8Error>(
            Machine {
                registers: s.registers.update(x as int, k as u8),
                waiting: false,
                pc: if s.waiting {
                    s.pc
                } else {
                    s.pc + 2
                },
                ..s
            },
        ),
{
    lemma_first_pressed(s.keys, k);
}

/// Only a `Cxnn` depends on the random byte: every other instruction has
/// the same effect, and fails alike, whatever byte is drawn, and a `Cxnn`
/// never fails.
pub proof fn lemma_random_only_in_cxnn(s: Machine, instr: Instruction, first: u8, second: u8)
    ensures
        !(instr is Random) ==> s.execute(instr, first) == s.execute(instr, second),
        instr is Random ==> s.execute(instr, first) is Ok,
{
}

} // verus!
