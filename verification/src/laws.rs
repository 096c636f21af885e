//! The headline properties of the interpreter, stated over the ghost model
//! and proved once and for all. Each law speaks about [`step_state`] and
//! [`step_result`], the same functions that pin down [`crate::chip8::Chip8::emulate`].

use vstd::prelude::*;

use crate::model::Chip8View;
use crate::model::StepError;
use crate::model::StepEvent;
use crate::model::DISPLAY_CELLS;
use crate::model::KEY_NUM;
use crate::model::MEM_SIZE;
use crate::model::PC_START;
use crate::model::STACK_LAYERS;
use crate::model::YPX;
use crate::model::any_pressed;
use crate::model::draw_collides;
use crate::model::draw_display;
use crate::model::draw_lit;
use crate::model::draw_mem_ok;
use crate::model::first_pressed_from;
use crate::model::flip;
use crate::model::font_loaded;
use crate::model::lemma_first_pressed_from;
use crate::model::lemma_op_fields;
use crate::model::load_mem;
use crate::model::load_ok;
use crate::model::op_group;
use crate::model::op_kk;
use crate::model::op_n;
use crate::model::op_nnn;
use crate::model::op_x;
use crate::model::op_y;
use crate::model::opcode_at;
use crate::model::step_result;
use crate::model::step_state;
use crate::model::tick;

verus! {

/// Whether the machine is about to fetch an instruction: it is not suspended
/// on a key wait and the program counter leaves room for a two-byte word.
pub open spec fn ready(s: Chip8View) -> bool {
    &&& !s.waiting
    &&& s.pc + 1 < MEM_SIZE
}

/// Whether an instruction word matches none of the implemented patterns.
pub open spec fn unknown_opcode(op: u16) -> bool {
    let g = op_group(op);
    ||| g == 0x5
    ||| g == 0x9
    ||| g == 0xB
    ||| g == 0xC
    ||| (g == 0x0 && op != 0x00E0 && op != 0x00EE)
    ||| (g == 0x8 && !(op_n(op) == 0x0 || op_n(op) == 0x1 || op_n(op) == 0x2 || op_n(op) == 0x3
            || op_n(op) == 0x4 || op_n(op) == 0x5 || op_n(op) == 0x6 || op_n(op) == 0xE))
    ||| (g == 0xE && op_kk(op) != 0x9E && op_kk(op) != 0xA1)
    ||| (g == 0xF && !(op_kk(op) == 0x07 || op_kk(op) == 0x0A || op_kk(op) == 0x15
            || op_kk(op) == 0x18 || op_kk(op) == 0x1E || op_kk(op) == 0x29 || op_kk(op) == 0x65))
}

/// Loading never disturbs the glyph font: the font region lies below the
/// program start address, so any accepted program leaves it intact.
pub proof fn lemma_load_keeps_font(mem: Seq<u8>, program: Seq<u8>)
    requires
        mem.len() == MEM_SIZE,
        font_loaded(mem),
        load_ok(program),
    ensures
        font_loaded(load_mem(mem, program)),
        forall|a: int| PC_START <= a < PC_START + program.len() ==>
            load_mem(mem, program)[a] == program[a - PC_START],
{
}

/// The clear instruction (00E0) blanks every display cell, whatever the
/// display held, and touches nothing but the display beyond the ordinary
/// fetch, program-counter advance and timer tick.
pub proof fn lemma_clear_display(s: Chip8View)
    requires
        ready(s),
        opcode_at(s) == 0x00E0,
    ensures
        step_state(s) == (Chip8View {
            display: Seq::new(DISPLAY_CELLS as nat, |c: int| 0u8),
            ..tick(s)
        }),
        step_result(s) == Ok::<StepEvent, StepError>(StepEvent::Executed),
{
    assert(0x00E0u16 >> 12u16 == 0u16) by (bit_vector);
}

/// The immediate-load instruction (6xkk) sets register x to kk exactly,
/// independent of its prior value, and changes no other register.
pub proof fn lemma_load_immediate(s: Chip8View)
    requires
        s.wf(),
        ready(s),
        op_group(opcode_at(s)) == 0x6,
    ensures
        step_state(s) == (Chip8View {
            reg: s.reg.update(op_x(opcode_at(s)) as int, op_kk(opcode_at(s))),
            ..tick(s)
        }),
        step_state(s).reg[op_x(opcode_at(s)) as int] == op_kk(opcode_at(s)),
        step_result(s) == Ok::<StepEvent, StepError>(StepEvent::Executed),
{
    lemma_op_fields(opcode_at(s));
}

/// The add-immediate instruction (7xkk) wraps modulo 256 and leaves the flag
/// register alone (stated for x other than the flag register itself).
pub proof fn lemma_add_immediate(s: Chip8View)
    requires
        s.wf(),
        ready(s),
        op_group(opcode_at(s)) == 0x7,
    ensures
        step_state(s) == (Chip8View {
            reg: s.reg.update(op_x(opcode_at(s)) as int,
                ((s.reg[op_x(opcode_at(s)) as int] + op_kk(opcode_at(s))) % 256) as u8),
            ..tick(s)
        }),
        op_x(opcode_at(s)) != 15 ==> step_state(s).reg[15] == s.reg[15],
        step_result(s) == Ok::<StepEvent, StepError>(StepEvent::Executed),
{
    lemma_op_fields(opcode_at(s));
}

/// The register-add instruction (8xy4) wraps the sum modulo 256 and raises
/// the flag register exactly when the sum exceeds 255, leaving the flag
/// untouched otherwise (stated for x other than the flag register).
pub proof fn lemma_add_registers(s: Chip8View)
    requires
        s.wf(),
        ready(s),
        op_group(opcode_at(s)) == 0x8,
        op_n(opcode_at(s)) == 0x4,
        op_x(opcode_at(s)) != 15,
    ensures
        step_state(s).reg[op_x(opcode_at(s)) as int]
            == ((s.reg[op_x(opcode_at(s)) as int] + s.reg[op_y(opcode_at(s)) as int]) % 256) as u8,
        step_state(s).reg[15] == (
            if s.reg[op_x(opcode_at(s)) as int] + s.reg[op_y(opcode_at(s)) as int] > 255 {
                1u8
            } else {
                s.reg[15]
            }),
        forall|i: int| 0 <= i < 16 && i != op_x(opcode_at(s)) as int && i != 15 ==>
            step_state(s).reg[i] == s.reg[i],
        step_result(s) == Ok::<StepEvent, StepError>(StepEvent::Executed),
{
    lemma_op_fields(opcode_at(s));
}

/// The register-subtract instruction (8xy5) wraps modulo 256 instead of
/// faulting, and the flag register reports "no borrow": 0 when register y
/// exceeds register x, 1 otherwise (stated for x and y other than the flag
/// register).
pub proof fn lemma_sub_registers(s: Chip8View)
    requires
        s.wf(),
        ready(s),
        op_group(opcode_at(s)) == 0x8,
        op_n(opcode_at(s)) == 0x5,
        op_x(opcode_at(s)) != 15,
        op_y(opcode_at(s)) != 15,
    ensures
        step_state(s).reg[op_x(opcode_at(s)) as int]
            == (((s.reg[op_x(opcode_at(s)) as int] - s.reg[op_y(opcode_at(s)) as int]) % 256) as u8),
        step_state(s).reg[15] == (
            if s.reg[op_y(opcode_at(s)) as int] > s.reg[op_x(opcode_at(s)) as int] {
                0u8
            } else {
                1u8
            }),
        forall|i: int| 0 <= i < 16 && i != op_x(opcode_at(s)) as int && i != 15 ==>
            step_state(s).reg[i] == s.reg[i],
        step_result(s) == Ok::<StepEvent, StepError>(StepEvent::Executed),
{
    lemma_op_fields(opcode_at(s));
}

/// Drawing clips instead of wrapping: a draw whose sprite bytes are readable
/// changes no cell outside the sprite's in-bounds footprint, and flips every
/// cell inside it.
pub proof fn lemma_draw_clips(s: Chip8View)
    requires
        s.wf(),
        ready(s),
        op_group(opcode_at(s)) == 0xD,
        draw_mem_ok(tick(s), opcode_at(s)),
    ensures
        forall|c: int| 0 <= c < DISPLAY_CELLS
            && !draw_lit(tick(s), opcode_at(s), c / (YPX as int), c % (YPX as int)) ==>
            step_state(s).display[c] == s.display[c],
        forall|c: int| 0 <= c < DISPLAY_CELLS
            && draw_lit(tick(s), opcode_at(s), c / (YPX as int), c % (YPX as int)) ==>
            step_state(s).display[c] == flip(s.display[c]),
        step_result(s) == Ok::<StepEvent, StepError>(StepEvent::Executed),
{
    lemma_op_fields(opcode_at(s));
}

/// Drawing the same sprite again over its own output restores the display:
/// every flipped cell flips back. Moreover the second draw collides exactly
/// when the first draw lit some cell that was previously off.
pub proof fn lemma_draw_twice_restores(t: Chip8View, op: u16)
    requires
        t.wf(),
    ensures
        ({
            let t2 = Chip8View { display: draw_display(t, op), ..t };
            &&& draw_display(t2, op) =~= t.display
            &&& draw_collides(t2, op) == (exists|j: int, i: int| #[trigger] draw_lit(t, op, j, i)
                    && t.display[j * (YPX as int) + i] == 0)
        }),
{
    let t2 = Chip8View { display: draw_display(t, op), ..t };
    assert forall|j: int, i: int| draw_lit(t, op, j, i) == draw_lit(t2, op, j, i) by {
        assert(t2.reg.update(15, 0u8) =~= t.reg.update(15, 0u8));
    }
    assert forall|c: int| 0 <= c < DISPLAY_CELLS implies
        draw_display(t2, op)[c] == t.display[c]
    by {
        let jj = c / (YPX as int);
        let ii = c % (YPX as int);
        assert(draw_lit(t, op, jj, ii) == draw_lit(t2, op, jj, ii));
    }
    assert(draw_collides(t2, op) == (exists|j: int, i: int| #[trigger] draw_lit(t, op, j, i)
            && t.display[j * (YPX as int) + i] == 0)) by {
        if draw_collides(t2, op) {
            let (j, i) = choose|j: int, i: int| #[trigger] draw_lit(t2, op, j, i)
                && t2.display[j * (YPX as int) + i] == 1;
            let c = j * (YPX as int) + i;
            assert(draw_lit(t, op, j, i));
            assert(0 <= c < DISPLAY_CELLS) by {
                assert(0 <= j < 64 && 0 <= i < 32);
            }
            assert(c / (YPX as int) == j && c % (YPX as int) == i);
            assert(t2.display[c] == flip(t.display[c]));
            assert(t.display[c] == 0);
        }
        if exists|j: int, i: int| #[trigger] draw_lit(t, op, j, i)
            && t.display[j * (YPX as int) + i] == 0 {
            let (j, i) = choose|j: int, i: int| #[trigger] draw_lit(t, op, j, i)
                && t.display[j * (YPX as int) + i] == 0;
            let c = j * (YPX as int) + i;
            assert(0 <= c < DISPLAY_CELLS) by {
                assert(0 <= j < 64 && 0 <= i < 32);
            }
            assert(c / (YPX as int) == j && c % (YPX as int) == i);
            assert(t2.display[c] == flip(t.display[c]));
            assert(draw_lit(t2, op, j, i) && t2.display[j * (YPX as int) + i] == 1);
        }
    }
}

/// A call (2nnn) followed by a return (00EE) at the call target brings the
/// program counter to the instruction immediately after the call, with the
/// stack level, registers, memory and display as they were.
pub proof fn lemma_call_return(s: Chip8View)
    requires
        s.wf(),
        ready(s),
        op_group(opcode_at(s)) == 0x2,
        s.sp < STACK_LAYERS - 1,
        op_nnn(opcode_at(s)) + 1 < MEM_SIZE,
        opcode_at(step_state(s)) == 0x00EE,
    ensures
        step_state(step_state(s)).pc == s.pc + 2,
        step_state(step_state(s)).sp == s.sp,
        !step_state(step_state(s)).waiting,
        step_state(step_state(s)).reg == s.reg,
        step_state(step_state(s)).mem == s.mem,
        step_state(step_state(s)).display == s.display,
{
    lemma_op_fields(opcode_at(s));
    let s1 = step_state(s);
    assert(s1.pc == op_nnn(opcode_at(s)));
    assert(s1.sp == s.sp + 1);
    assert(s1.stack[s.sp + 1] == (s.pc + 2) as u16);
    assert(0x00EEu16 >> 12u16 == 0u16) by (bit_vector);
}

/// While waiting for a key with none pressed, a step changes nothing at all:
/// no fetch, no program-counter move, no timer tick, no register write.
pub proof fn lemma_wait_blocks(s: Chip8View)
    requires
        s.waiting,
        forall|k: int| 0 <= k < KEY_NUM ==> (#[trigger] s.key[k]) != 1,
    ensures
        step_state(s) == s,
        step_result(s) == Ok::<StepEvent, StepError>(StepEvent::WaitingForKey),
{
    assert(!any_pressed(s.key));
}

/// While waiting for a key, the first step that sees pressed keys consumes
/// the lowest-numbered one: it lands in the wait target register, the wait
/// ends, and nothing else moves.
pub proof fn lemma_wait_captures(s: Chip8View, k: int)
    requires
        s.wf(),
        s.waiting,
        0 <= k < KEY_NUM,
        s.key[k] == 1,
        forall|j: int| 0 <= j < k ==> (#[trigger] s.key[j]) != 1,
    ensures
        step_state(s) == (Chip8View {
            waiting: false,
            reg: s.reg.update(s.wait_reg, k as u8),
            ..s
        }),
        step_result(s) == Ok::<StepEvent, StepError>(StepEvent::KeyCaptured(k as u8)),
{
    lemma_first_pressed_from(s.key, k);
    assert(first_pressed_from(s.key, 0) == k);
    assert(any_pressed(s.key));
}

/// An unknown instruction word is a no-op that still consumes the fetch: the
/// program counter advances by two, both timers tick down, and the rest of
/// the state is untouched.
pub proof fn lemma_unknown_opcode(s: Chip8View)
    requires
        ready(s),
        unknown_opcode(opcode_at(s)),
    ensures
        step_state(s) == tick(s),
        step_result(s)
            == Ok::<StepEvent, StepError>(StepEvent::UnknownOpcode(opcode_at(s))),
{
    lemma_op_fields(opcode_at(s));
}

} // verus!
