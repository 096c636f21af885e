//! The mathematical model of the interpreter: a ghost view of the machine
//! state and a total step function over it. Every executable operation of the
//! library is specified against these definitions.

use vstd::prelude::*;

verus! {

/// Bytes of addressable memory.
pub const MEM_SIZE: usize = 4096;
/// Bytes reserved for the built-in glyph font at the bottom of memory.
pub const FONTSET_SIZE: usize = 80;
/// Bytes of the working margin reserved for display bookkeeping.
pub const DISPLAY_SIZE: usize = 256;
/// Bytes of the working margin reserved for stack bookkeeping.
pub const STACK_SIZE: usize = 96;
/// Address at which a program is loaded and where execution starts.
pub const PC_START: usize = 512;
/// Display width in cells.
pub const XPX: usize = 64;
/// Display height in cells.
pub const YPX: usize = 32;
/// Total display cells, stored column-major: cell (x, y) sits at x * YPX + y.
pub const DISPLAY_CELLS: usize = 2048;
/// Number of general-purpose registers.
pub const REGISTER_NUM: usize = 16;
/// Number of keys in the input latch.
pub const KEY_NUM: usize = 16;
/// Number of return-address slots in the call stack.
pub const STACK_LAYERS: usize = 16;

/// What a successful step did; returned alongside the step result as the
/// diagnostic channel.
#[derive(Clone, Copy, Debug, PartialEq, Eq, Structural)]
pub enum StepEvent {
    /// An implemented instruction was fetched and executed.
    Executed,
    /// The fetched word matched no implemented instruction; the step still
    /// consumed the fetch, the program-counter advance and the timer tick.
    UnknownOpcode(u16),
    /// The machine is waiting for a key and none was pressed; nothing changed.
    WaitingForKey,
    /// The machine was waiting for a key and consumed the given one.
    KeyCaptured(u8),
}

/// A condition that stops the current step from completing its instruction.
/// All of these are recoverable: the caller may keep stepping.
#[derive(Clone, Copy, Debug, PartialEq, Eq, Structural)]
pub enum StepError {
    /// The program counter points past the end of memory; nothing changed.
    PcOutOfRange,
    /// A call would grow the stack past its last slot; the call is rejected.
    StackOverflow,
    /// A return was executed with an empty stack; the return is rejected.
    StackUnderflow,
    /// A draw or register-fill would read past the end of memory.
    MemoryOutOfRange,
    /// A key-test instruction named a key outside the 16-key latch.
    KeyOutOfRange,
}

/// The machine state as mathematics: sequences for the arrays, plain integers
/// for the scalar registers.
#[verifier::ext_equal]
pub ghost struct Chip8View {
    /// 4096 bytes of memory.
    pub mem: Seq<u8>,
    /// 16 general-purpose registers; index 15 is the flag register.
    pub reg: Seq<u8>,
    /// Program counter (a byte address).
    pub pc: u16,
    /// Index register.
    pub index: u16,
    /// 64 x 32 display, column-major, each cell 0 or 1.
    pub display: Seq<u8>,
    /// Delay timer.
    pub delay: u8,
    /// Sound timer.
    pub sound: u8,
    /// 16 return-address slots.
    pub stack: Seq<u16>,
    /// Stack pointer, in [0, 15].
    pub sp: int,
    /// 16 key states, 1 = pressed.
    pub key: Seq<u8>,
    /// Whether the machine is suspended until a key press.
    pub waiting: bool,
    /// Register that receives the key when the wait ends.
    pub wait_reg: int,
}

/// The 80-byte glyph font: 16 glyphs of 5 bytes, one per hex digit.
pub open spec fn font_loaded(mem: Seq<u8>) -> bool {
    // glyph 0
    &&& mem[0] == 0xF0 &&& mem[1] == 0x90 &&& mem[2] == 0x90 &&& mem[3] == 0x90 &&& mem[4] == 0xF0
    // glyph 1
    &&& mem[5] == 0x20 &&& mem[6] == 0x60 &&& mem[7] == 0x20 &&& mem[8] == 0x20 &&& mem[9] == 0x70
    // glyph 2
    &&& mem[10] == 0xF0 &&& mem[11] == 0x10 &&& mem[12] == 0xF0 &&& mem[13] == 0x80 &&& mem[14] == 0xF0
    // glyph 3
    &&& mem[15] == 0xF0 &&& mem[16] == 0x10 &&& mem[17] == 0xF0 &&& mem[18] == 0x10 &&& mem[19] == 0xF0
    // glyph 4
    &&& mem[20] == 0x90 &&& mem[21] == 0x90 &&& mem[22] == 0xF0 &&& mem[23] == 0x10 &&& mem[24] == 0x10
    // glyph 5
    &&& mem[25] == 0xF0 &&& mem[26] == 0x80 &&& mem[27] == 0xF0 &&& mem[28] == 0x10 &&& mem[29] == 0xF0
    // glyph 6
    &&& mem[30] == 0xF0 &&& mem[31] == 0x80 &&& mem[32] == 0xF0 &&& mem[33] == 0x90 &&& mem[34] == 0xF0
    // glyph 7
    &&& mem[35] == 0xF0 &&& mem[36] == 0x10 &&& mem[37] == 0x20 &&& mem[38] == 0x40 &&& mem[39] == 0x40
    // glyph 8
    &&& mem[40] == 0xF0 &&& mem[41] == 0x90 &&& mem[42] == 0xF0 &&& mem[43] == 0x90 &&& mem[44] == 0xF0
    // glyph 9
    &&& mem[45] == 0xF0 &&& mem[46] == 0x90 &&& mem[47] == 0xF0 &&& mem[48] == 0x10 &&& mem[49] == 0xF0
    // glyph A
    &&& mem[50] == 0xF0 &&& mem[51] == 0x90 &&& mem[52] == 0xF0 &&& mem[53] == 0x90 &&& mem[54] == 0x90
    // glyph B
    &&& mem[55] == 0xE0 &&& mem[56] == 0x90 &&& mem[57] == 0xE0 &&& mem[58] == 0x90 &&& mem[59] == 0xE0
    // glyph C
    &&& mem[60] == 0xF0 &&& mem[61] == 0x80 &&& mem[62] == 0x80 &&& mem[63] == 0x80 &&& mem[64] == 0xF0
    // glyph D
    &&& mem[65] == 0xE0 &&& mem[66] == 0x90 &&& mem[67] == 0x90 &&& mem[68] == 0x90 &&& mem[69] == 0xE0
    // glyph E
    &&& mem[70] == 0xF0 &&& mem[71] == 0x80 &&& mem[72] == 0xF0 &&& mem[73] == 0x80 &&& mem[74] == 0xF0
    // glyph F
    &&& mem[75] == 0xF0 &&& mem[76] == 0x80 &&& mem[77] == 0xF0 &&& mem[78] == 0x80 &&& mem[79] == 0x80
}

impl Chip8View {
    /// Structural well-formedness: fixed array sizes, bounded indices, binary
    /// display cells, and the glyph font in place. Established at construction
    /// and preserved by every operation.
    pub open spec fn wf(self) -> bool {
        &&& self.mem.len() == MEM_SIZE
        &&& self.reg.len() == REGISTER_NUM
        &&& self.display.len() == DISPLAY_CELLS
        &&& self.stack.len() == STACK_LAYERS
        &&& self.key.len() == KEY_NUM
        &&& 0 <= self.sp < STACK_LAYERS
        &&& 0 <= self.wait_reg < REGISTER_NUM
        &&& forall|c: int| 0 <= c < DISPLAY_CELLS ==> ((#[trigger] self.display[c]) == 0 || self.display[c] == 1)
        &&& font_loaded(self.mem)
    }
}

/// Whether a program of this shape is accepted by `load`: it must respect the
/// reserved working margins and fit in memory starting at `PC_START`.
pub open spec fn load_ok(program: Seq<u8>) -> bool {
    &&& program.len() <= MEM_SIZE - (FONTSET_SIZE + DISPLAY_SIZE + STACK_SIZE)
    &&& PC_START + program.len() <= MEM_SIZE
}

/// Memory after a successful load: the program verbatim at `PC_START`, all
/// other cells untouched.
pub open spec fn load_mem(mem: Seq<u8>, program: Seq<u8>) -> Seq<u8> {
    Seq::new(MEM_SIZE as nat, |a: int| {
        if PC_START <= a < PC_START + program.len() {
            program[a - PC_START]
        } else {
            mem[a]
        }
    })
}

/// Leading 4-bit opcode group.
pub open spec fn op_group(op: u16) -> u16 {
    op >> 12
}

/// 12-bit address operand.
pub open spec fn op_nnn(op: u16) -> u16 {
    op & 0x0FFF
}

/// First 4-bit register operand.
pub open spec fn op_x(op: u16) -> u16 {
    (op >> 8) & 0xF
}

/// Second 4-bit register operand.
pub open spec fn op_y(op: u16) -> u16 {
    (op >> 4) & 0xF
}

/// 8-bit immediate operand.
pub open spec fn op_kk(op: u16) -> u8 {
    (op & 0xFF) as u8
}

/// 4-bit count operand.
pub open spec fn op_n(op: u16) -> u16 {
    op & 0xF
}

/// Bounds of the decoded operand fields.
pub proof fn lemma_op_fields(op: u16)
    ensures
        op_group(op) < 16,
        op_nnn(op) < 4096,
        op_x(op) < 16,
        op_y(op) < 16,
        op_n(op) < 16,
{
    assert(op >> 12 < 16 && op & 0x0FFF < 4096 && (op >> 8) & 0xF < 16 && (op >> 4) & 0xF < 16
        && op & 0xF < 16) by (bit_vector);
}

/// The big-endian instruction word at the program counter.
pub open spec fn opcode_at(s: Chip8View) -> u16 {
    ((s.mem[s.pc as int] as u16) << 8) | (s.mem[s.pc as int + 1] as u16)
}

/// One countdown-timer tick: decrement, floored at zero.
pub open spec fn dec_timer(t: u8) -> u8 {
    if t > 0 { (t - 1) as u8 } else { 0 }
}

/// The state every executed instruction starts from: program counter advanced
/// past the fetched word, both timers ticked.
pub open spec fn tick(s: Chip8View) -> Chip8View {
    Chip8View {
        pc: (s.pc + 2) as u16,
        delay: dec_timer(s.delay),
        sound: dec_timer(s.sound),
        ..s
    }
}

/// Whether any key of the latch is pressed.
pub open spec fn any_pressed(key: Seq<u8>) -> bool {
    exists|k: int| 0 <= k < KEY_NUM && (#[trigger] key[k]) == 1
}

/// The lowest pressed key index at or above `k`, or 16 if none.
pub open spec fn first_pressed_from(key: Seq<u8>, k: int) -> int
    decreases KEY_NUM - k,
{
    if k < 0 || k >= KEY_NUM {
        KEY_NUM as int
    } else if key[k] == 1 {
        k
    } else {
        first_pressed_from(key, k + 1)
    }
}

/// If every key below `k` is unpressed, the scan from 0 and the scan from `k`
/// agree.
pub proof fn lemma_first_pressed_from(key: Seq<u8>, k: int)
    requires
        0 <= k <= KEY_NUM,
        forall|j: int| 0 <= j < k ==> (#[trigger] key[j]) != 1,
    ensures
        first_pressed_from(key, 0) == first_pressed_from(key, k),
    decreases k,
{
    if k > 0 {
        lemma_first_pressed_from(key, k - 1);
    }
}

/// System group (leading nibble 0): clear display, or return from subroutine.
pub open spec fn spec_sys(t: Chip8View, op: u16) -> (Chip8View, Result<StepEvent, StepError>) {
    if op == 0x00E0 {
        (Chip8View { display: Seq::new(DISPLAY_CELLS as nat, |c: int| 0u8), ..t },
            Ok(StepEvent::Executed))
    } else if op == 0x00EE {
        if t.sp == 0 {
            (t, Err(StepError::StackUnderflow))
        } else {
            (Chip8View { pc: t.stack[t.sp], sp: t.sp - 1, ..t }, Ok(StepEvent::Executed))
        }
    } else {
        (t, Ok(StepEvent::UnknownOpcode(op)))
    }
}

/// Arithmetic group (leading nibble 8): register-to-register operations.
/// The flag register is written first where the operation has a flag output,
/// and the value written to register `x` is computed afterwards, so that the
/// two writes interact exactly as in a sequential execution when `x` or `y`
/// is 15.
pub open spec fn spec_alu(t: Chip8View, op: u16) -> (Chip8View, Result<StepEvent, StepError>) {
    let sel = op_n(op);
    let x = op_x(op) as int;
    let y = op_y(op) as int;
    if sel == 0x0 {
        (Chip8View { reg: t.reg.update(x, t.reg[y]), ..t }, Ok(StepEvent::Executed))
    } else if sel == 0x1 {
        (Chip8View { reg: t.reg.update(x, t.reg[x] | t.reg[y]), ..t }, Ok(StepEvent::Executed))
    } else if sel == 0x2 {
        (Chip8View { reg: t.reg.update(x, t.reg[x] & t.reg[y]), ..t }, Ok(StepEvent::Executed))
    } else if sel == 0x3 {
        (Chip8View { reg: t.reg.update(x, t.reg[x] ^ t.reg[y]), ..t }, Ok(StepEvent::Executed))
    } else if sel == 0x4 {
        let sum = t.reg[x] + t.reg[y];
        let with_flag = if sum > 255 { t.reg.update(15, 1u8) } else { t.reg };
        (Chip8View { reg: with_flag.update(x, (sum % 256) as u8), ..t }, Ok(StepEvent::Executed))
    } else if sel == 0x5 {
        let with_flag = t.reg.update(15, if t.reg[y] > t.reg[x] { 0u8 } else { 1u8 });
        let diff = ((with_flag[x] - with_flag[y]) % 256 + 256) % 256;
        (Chip8View { reg: with_flag.update(x, diff as u8), ..t }, Ok(StepEvent::Executed))
    } else if sel == 0x6 {
        let with_flag = t.reg.update(15, t.reg[x] & 1);
        (Chip8View { reg: with_flag.update(x, with_flag[x] >> 1), ..t }, Ok(StepEvent::Executed))
    } else if sel == 0xE {
        let with_flag = t.reg.update(15, (t.reg[x] & 0x80) >> 7);
        (Chip8View { reg: with_flag.update(x, (with_flag[x] * 2 % 256) as u8), ..t },
            Ok(StepEvent::Executed))
    } else {
        (t, Ok(StepEvent::UnknownOpcode(op)))
    }
}

/// X coordinate of a draw: read from its register after the flag register has
/// been cleared, as the hardware sequence does.
pub open spec fn draw_x(t: Chip8View, op: u16) -> int {
    t.reg.update(15, 0u8)[op_x(op) as int] as int
}

/// Y coordinate of a draw, read after the flag register has been cleared.
pub open spec fn draw_y(t: Chip8View, op: u16) -> int {
    t.reg.update(15, 0u8)[op_y(op) as int] as int
}

/// Sprite height of a draw.
pub open spec fn draw_h(t: Chip8View, op: u16) -> int {
    op_n(op) as int
}

/// How many sprite rows actually land on the display (rows below the bottom
/// edge are clipped and their bytes never read).
pub open spec fn draw_rows(t: Chip8View, op: u16) -> int {
    let y = draw_y(t, op);
    let h = draw_h(t, op);
    if y >= YPX { 0 } else if h <= YPX - y { h } else { YPX - y }
}

/// Whether every sprite byte the draw will read lies inside memory.
pub open spec fn draw_mem_ok(t: Chip8View, op: u16) -> bool {
    draw_rows(t, op) == 0 || t.index + draw_rows(t, op) <= MEM_SIZE
}

/// Whether bit `off` (most significant first) of a sprite row byte is set.
pub open spec fn sprite_bit(row: u8, off: u8) -> bool {
    row & (0x80u8 >> off) != 0
}

/// Whether the draw writes to display cell (j, i): the cell is covered by the
/// sprite, inside the display, and its sprite bit is set.
pub open spec fn draw_lit(t: Chip8View, op: u16, j: int, i: int) -> bool {
    let x = draw_x(t, op);
    let y = draw_y(t, op);
    let h = draw_h(t, op);
    &&& y <= i < y + h
    &&& 0 <= i < YPX
    &&& x <= j < x + 8
    &&& 0 <= j < XPX
    &&& sprite_bit(t.mem[t.index + (i - y)], (j - x) as u8)
}

/// A cell flip: the display is binary and drawing is exclusive-or.
pub open spec fn flip(cell: u8) -> u8 {
    if cell == 1 { 0u8 } else { 1u8 }
}

/// Whether the draw hits at least one already-lit cell.
pub open spec fn draw_collides(t: Chip8View, op: u16) -> bool {
    exists|j: int, i: int| #[trigger] draw_lit(t, op, j, i) && t.display[j * YPX + i] == 1
}

/// The display after the draw: every written cell flipped, all others kept.
pub open spec fn draw_display(t: Chip8View, op: u16) -> Seq<u8> {
    Seq::new(DISPLAY_CELLS as nat, |c: int| {
        if draw_lit(t, op, c / YPX as int, c % YPX as int) {
            flip(t.display[c])
        } else {
            t.display[c]
        }
    })
}

/// Draw instruction (Dxyn). The flag register is cleared first; if a sprite
/// byte would be read from outside memory the draw stops there, otherwise the
/// covered cells are flipped and the flag reports whether any collision
/// happened.
pub open spec fn spec_draw(t: Chip8View, op: u16) -> (Chip8View, Result<StepEvent, StepError>) {
    let cleared = t.reg.update(15, 0u8);
    if !draw_mem_ok(t, op) {
        (Chip8View { reg: cleared, ..t }, Err(StepError::MemoryOutOfRange))
    } else {
        (Chip8View {
            reg: cleared.update(15, if draw_collides(t, op) { 1u8 } else { 0u8 }),
            display: draw_display(t, op),
            ..t
        }, Ok(StepEvent::Executed))
    }
}

/// Key group (leading nibble E): skip on pressed / not pressed.
pub open spec fn spec_keyops(t: Chip8View, op: u16) -> (Chip8View, Result<StepEvent, StepError>) {
    let sel = op_kk(op);
    let code = t.reg[op_x(op) as int] as int;
    if sel == 0x9E {
        if code >= KEY_NUM {
            (t, Err(StepError::KeyOutOfRange))
        } else if t.key[code] == 1 {
            (Chip8View { pc: (t.pc + 2) as u16, ..t }, Ok(StepEvent::Executed))
        } else {
            (t, Ok(StepEvent::Executed))
        }
    } else if sel == 0xA1 {
        if code >= KEY_NUM {
            (t, Err(StepError::KeyOutOfRange))
        } else if t.key[code] != 1 {
            (Chip8View { pc: (t.pc + 2) as u16, ..t }, Ok(StepEvent::Executed))
        } else {
            (t, Ok(StepEvent::Executed))
        }
    } else {
        (t, Ok(StepEvent::UnknownOpcode(op)))
    }
}

/// Timer, wait and memory group (leading nibble F).
pub open spec fn spec_fops(t: Chip8View, op: u16) -> (Chip8View, Result<StepEvent, StepError>) {
    let sel = op_kk(op);
    let x = op_x(op) as int;
    if sel == 0x07 {
        (Chip8View { reg: t.reg.update(x, t.delay), ..t }, Ok(StepEvent::Executed))
    } else if sel == 0x0A {
        (Chip8View { waiting: true, wait_reg: x, ..t }, Ok(StepEvent::Executed))
    } else if sel == 0x15 {
        (Chip8View { delay: t.reg[x], ..t }, Ok(StepEvent::Executed))
    } else if sel == 0x18 {
        (Chip8View { sound: t.reg[x], ..t }, Ok(StepEvent::Executed))
    } else if sel == 0x1E {
        (Chip8View { index: ((t.index + t.reg[x]) % 0x10000) as u16, ..t },
            Ok(StepEvent::Executed))
    } else if sel == 0x29 {
        (Chip8View { index: (5 * t.reg[x]) as u16, ..t }, Ok(StepEvent::Executed))
    } else if sel == 0x65 {
        if t.index + x >= MEM_SIZE {
            (t, Err(StepError::MemoryOutOfRange))
        } else {
            (Chip8View {
                reg: Seq::new(REGISTER_NUM as nat, |i: int| {
                    if 0 <= i <= x { t.mem[t.index + i] } else { t.reg[i] }
                }),
                ..t
            }, Ok(StepEvent::Executed))
        }
    } else {
        (t, Ok(StepEvent::UnknownOpcode(op)))
    }
}

/// The effect of one fetched instruction word on the already-advanced state
/// `t` (program counter past the word, timers ticked). A word matching no
/// implemented pattern leaves the state as it is.
pub open spec fn spec_instr(t: Chip8View, op: u16) -> (Chip8View, Result<StepEvent, StepError>) {
    let g = op_group(op);
    if g == 0x0 {
        spec_sys(t, op)
    } else if g == 0x1 {
        (Chip8View { pc: op_nnn(op), ..t }, Ok(StepEvent::Executed))
    } else if g == 0x2 {
        if t.sp >= STACK_LAYERS - 1 {
            (t, Err(StepError::StackOverflow))
        } else {
            (Chip8View {
                sp: t.sp + 1,
                stack: t.stack.update(t.sp + 1, t.pc),
                pc: op_nnn(op),
                ..t
            }, Ok(StepEvent::Executed))
        }
    } else if g == 0x3 {
        if t.reg[op_x(op) as int] == op_kk(op) {
            (Chip8View { pc: (t.pc + 2) as u16, ..t }, Ok(StepEvent::Executed))
        } else {
            (t, Ok(StepEvent::Executed))
        }
    } else if g == 0x4 {
        if t.reg[op_x(op) as int] != op_kk(op) {
            (Chip8View { pc: (t.pc + 2) as u16, ..t }, Ok(StepEvent::Executed))
        } else {
            (t, Ok(StepEvent::Executed))
        }
    } else if g == 0x6 {
        (Chip8View { reg: t.reg.update(op_x(op) as int, op_kk(op)), ..t },
            Ok(StepEvent::Executed))
    } else if g == 0x7 {
        (Chip8View {
            reg: t.reg.update(op_x(op) as int,
                ((t.reg[op_x(op) as int] + op_kk(op)) % 256) as u8),
            ..t
        }, Ok(StepEvent::Executed))
    } else if g == 0x8 {
        spec_alu(t, op)
    } else if g == 0xA {
        (Chip8View { index: op_nnn(op), ..t }, Ok(StepEvent::Executed))
    } else if g == 0xD {
        spec_draw(t, op)
    } else if g == 0xE {
        spec_keyops(t, op)
    } else if g == 0xF {
        spec_fops(t, op)
    } else {
        (t, Ok(StepEvent::UnknownOpcode(op)))
    }
}

/// One unit of work of the machine. While waiting for a key, the step either
/// consumes the lowest pressed key or does nothing at all; otherwise it
/// fetches one instruction word, advances the program counter, ticks both
/// timers and executes the word's effect.
pub open spec fn spec_step(s: Chip8View) -> (Chip8View, Result<StepEvent, StepError>) {
    if s.waiting {
        if any_pressed(s.key) {
            let k = first_pressed_from(s.key, 0);
            (Chip8View { waiting: false, reg: s.reg.update(s.wait_reg, k as u8), ..s },
                Ok(StepEvent::KeyCaptured(k as u8)))
        } else {
            (s, Ok(StepEvent::WaitingForKey))
        }
    } else if s.pc + 1 >= MEM_SIZE {
        (s, Err(StepError::PcOutOfRange))
    } else {
        spec_instr(tick(s), opcode_at(s))
    }
}

/// The state after one step.
pub open spec fn step_state(s: Chip8View) -> Chip8View {
    spec_step(s).0
}

/// The diagnostic result of one step.
pub open spec fn step_result(s: Chip8View) -> Result<StepEvent, StepError> {
    spec_step(s).1
}

} // verus!
