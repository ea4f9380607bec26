//! The CHIP-8 interpreter: the fetch-decode-execute cycle, stated against a
//! mathematical model of the machine's state.

use vstd::prelude::*;

use crate::instr::{
    decode, decode_spec, lemma_decode_wf, op_wf, word_kk, word_n, word_opcode, word_x, word_y,
    Chip8Error, Op,
};
use crate::memory::Memory;
use crate::periph::{tick_value, Keypad, Timer, VPU};

verus! {

/// Number of addressable memory cells.
pub const MEM_SIZE: u16 = 0x1000;

/// Address at which programs are loaded and execution starts.
pub const PROGRAM_START: u16 = 0x200;

/// Display width in pixels.
pub const SCREEN_W: u16 = 64;

/// Display height in pixels.
pub const SCREEN_H: u16 = 32;

/// The machine's whole state, as mathematical values.
pub struct MachineState {
    /// The 4096 memory cells.
    pub mem: Seq<u8>,
    /// The 64 x 32 display, row by row.
    pub fb: Seq<bool>,
    /// V0..VF.
    pub regs: Seq<u8>,
    /// The return-address stack; slot 0 is never used.
    pub stack: Seq<u16>,
    /// The index register I.
    pub ir: u16,
    pub pc: u16,
    /// Number of return addresses on the stack.
    pub sp: u8,
    pub delay: u8,
    pub sound: u8,
    /// Which of the keys 0x0..=0xF are pressed.
    pub keys: Seq<bool>,
    /// Whether a key changed since this was last read.
    pub key_changed: bool,
    /// The register awaiting a key press, while the machine is blocked on one.
    pub waiting: Option<u8>,
}

/// The built-in glyphs of the hexadecimal digits, five bytes each.
pub open spec fn font() -> Seq<u8> {
    seq![
        0xF0u8, 0x90, 0x90, 0x90, 0xF0, 0x20, 0x60, 0x20, 0x20, 0x70,
        0xF0, 0x10, 0xF0, 0x80, 0xF0, 0xF0, 0x10, 0xF0, 0x10, 0xF0,
        0x90, 0x90, 0xF0, 0x10, 0x10, 0xF0, 0x80, 0xF0, 0x10, 0xF0,
        0xF0, 0x80, 0xF0, 0x90, 0xF0, 0xF0, 0x10, 0x20, 0x40, 0x40,
        0xF0, 0x90, 0xF0, 0x90, 0xF0, 0xF0, 0x90, 0xF0, 0x10, 0xF0,
        0xF0, 0x90, 0xF0, 0x90, 0x90, 0xE0, 0x90, 0xE0, 0x90, 0xE0,
        0xF0, 0x80, 0x80, 0x80, 0xF0, 0xE0, 0x90, 0x90, 0x90, 0xE0,
        0xF0, 0x80, 0xF0, 0x80, 0xF0, 0xF0, 0x80, 0xF0, 0x80, 0x80,
    ]
}

/// The memory cell `k` bytes past `base`, wrapping at the end of memory.
pub open spec fn mem_addr(base: u16, k: int) -> int {
    (base + k) % 4096
}

/// A state that is fresh from construction.
pub open spec fn initial_state() -> MachineState {
    MachineState {
        mem: font() + Seq::new(4016, |i: int| 0u8),
        fb: Seq::new(2048, |i: int| false),
        regs: Seq::new(16, |i: int| 0u8),
        stack: Seq::new(16, |i: int| 0u16),
        ir: 0,
        pc: PROGRAM_START,
        sp: 0,
        delay: 0,
        sound: 0,
        keys: Seq::new(16, |i: int| false),
        key_changed: false,
        waiting: None,
    }
}

impl MachineState {
    pub open spec fn wf(&self) -> bool {
        &&& self.mem.len() == 4096
        &&& self.fb.len() == 2048
        &&& self.regs.len() == 16
        &&& self.stack.len() == 16
        &&& self.pc < 4096
        &&& self.sp < 16
        &&& forall|i: int| 0 <= i < 16 ==> #[trigger] self.stack[i] < 4096
        &&& self.waiting matches Some(x) ==> x < 16
    }

    pub open spec fn reg(&self, i: u8) -> u8 {
        self.regs[i as int]
    }

    pub open spec fn set_reg(self, i: u8, v: u8) -> MachineState {
        MachineState { regs: self.regs.update(i as int, v), ..self }
    }

    /// Sets `Vx` and then the flag register.
    pub open spec fn set_reg_flag(self, x: u8, v: u8, flag: u8) -> MachineState {
        MachineState { regs: self.regs.update(x as int, v).update(15, flag), ..self }
    }

    /// Skips the next instruction when `cond` holds.
    pub open spec fn skip_if(self, cond: bool) -> MachineState {
        if cond {
            MachineState { pc: ((self.pc + 2) % 4096) as u16, ..self }
        } else {
            self
        }
    }

    /// The 16-bit word stored at the program counter, high byte first.
    pub open spec fn fetch_word(&self) -> u16 {
        (self.mem[self.pc as int] * 256 + self.mem[mem_addr(self.pc, 1)]) as u16
    }
}

/// The state after the font has been reinstalled at address 0 and a program
/// image copied to the load address; every other cell keeps its value.
pub open spec fn load_rom(s: MachineState, rom: Seq<u8>) -> MachineState {
    MachineState {
        mem: font() + s.mem.subrange(80, PROGRAM_START as int) + rom + s.mem.skip(
            PROGRAM_START + rom.len(),
        ),
        ..s
    }
}

/// The lowest-numbered key at or after `i` that is pressed.
pub open spec fn first_pressed_from(keys: Seq<bool>, i: nat) -> Option<u8>
    decreases 16 - i,
{
    if i >= 16 {
        None
    } else if keys[i as int] {
        Some(i as u8)
    } else {
        first_pressed_from(keys, i + 1)
    }
}

/// The lowest-numbered key that is pressed.
pub open spec fn first_pressed(keys: Seq<bool>) -> Option<u8> {
    first_pressed_from(keys, 0)
}

/// One poll of a machine waiting for a key into register `x`: the change flag
/// is consumed; if it was set and some key is down, the lowest such key goes
/// into `Vx` and the wait ends, otherwise the machine keeps waiting.
pub open spec fn poll_key(s: MachineState, x: u8) -> MachineState {
    let s1 = MachineState { key_changed: false, ..s };
    if s.key_changed && first_pressed(s.keys) is Some {
        MachineState { waiting: None, ..s1.set_reg(x, first_pressed(s.keys)->Some_0) }
    } else {
        MachineState { waiting: Some(x), ..s1 }
    }
}

/// Whether bit `k` of a sprite byte, counted from the most significant bit, is set.
pub open spec fn sprite_bit(b: u8, k: int) -> bool {
    b & (0x80u8 >> (k as u8)) != 0
}

/// Whether the sprite of `n` rows read from `mem` at `ir` and placed with its
/// top-left corner at (x0, y0) has a set bit on screen pixel `p`. Rows and
/// columns past the screen's edge are clipped.
pub open spec fn sprite_covers(mem: Seq<u8>, ir: u16, x0: int, y0: int, n: int, p: int) -> bool {
    let r = p / 64;
    let c = p % 64;
    &&& y0 <= r < y0 + n
    &&& x0 <= c < x0 + 8
    &&& sprite_bit(mem[mem_addr(ir, r - y0)], c - x0)
}

/// The display after XOR-drawing the sprite.
pub open spec fn sprite_drawn(
    fb: Seq<bool>,
    mem: Seq<u8>,
    ir: u16,
    x0: int,
    y0: int,
    n: int,
) -> Seq<bool> {
    Seq::new(fb.len(), |p: int| fb[p] != sprite_covers(mem, ir, x0, y0, n, p))
}

/// Whether drawing the sprite turns some lit pixel dark.
pub open spec fn sprite_collides(
    fb: Seq<bool>,
    mem: Seq<u8>,
    ir: u16,
    x0: int,
    y0: int,
    n: int,
) -> bool {
    exists|p: int| 0 <= p < fb.len() && fb[p] && sprite_covers(mem, ir, x0, y0, n, p)
}

/// Memory after `V0..=Vx` have been stored from `ir` on.
pub open spec fn regs_stored(mem: Seq<u8>, regs: Seq<u8>, ir: u16, x: u8) -> Seq<u8> {
    Seq::new(
        mem.len(),
        |a: int|
            {
                let k = (a - ir) % 4096;
                if k <= x {
                    regs[k]
                } else {
                    mem[a]
                }
            },
    )
}

/// Registers after `V0..=Vx` have been loaded from `ir` on.
pub open spec fn regs_loaded(regs: Seq<u8>, mem: Seq<u8>, ir: u16, x: u8) -> Seq<u8> {
    Seq::new(regs.len(), |i: int| if i <= x { mem[mem_addr(ir, i)] } else { regs[i] })
}

/// `a - b` on bytes, wrapping.
pub open spec fn sub_wrap(a: u8, b: u8) -> u8 {
    if a >= b {
        (a - b) as u8
    } else {
        (a + 256 - b) as u8
    }
}

/// The effect of one instruction, once it has been fetched and the program
/// counter moved past it; `rnd` is the random byte the instruction may use.
pub open spec fn exec_op(s: MachineState, op: Op, rnd: u8) -> Result<MachineState, Chip8Error> {
    match op {
        Op::Clear => Ok(MachineState { fb: Seq::new(2048, |p: int| false), ..s }),
        Op::Return => if s.sp == 0 {
            Err(Chip8Error::StackUnderflow)
        } else {
            Ok(MachineState { pc: s.stack[s.sp as int], sp: (s.sp - 1) as u8, ..s })
        },
        Op::Jump(a) => Ok(MachineState { pc: a, ..s }),
        Op::Call(a) => if s.sp >= 15 {
            Err(Chip8Error::StackOverflow)
        } else {
            Ok(
                MachineState {
                    sp: (s.sp + 1) as u8,
                    stack: s.stack.update(s.sp + 1, s.pc),
                    pc: a,
                    ..s
                },
            )
        },
        Op::SkipEqImm(x, k) => Ok(s.skip_if(s.reg(x) == k)),
        Op::SkipNeImm(x, k) => Ok(s.skip_if(s.reg(x) != k)),
        Op::SkipEqReg(x, y) => Ok(s.skip_if(s.reg(x) == s.reg(y))),
        Op::SkipNeReg(x, y) => Ok(s.skip_if(s.reg(x) != s.reg(y))),
        Op::LoadImm(x, k) => Ok(s.set_reg(x, k)),
        Op::AddImm(x, k) => Ok(s.set_reg(x, ((s.reg(x) + k) % 256) as u8)),
        Op::Move(x, y) => Ok(s.set_reg(x, s.reg(y))),
        Op::Or(x, y) => Ok(s.set_reg_flag(x, s.reg(x) | s.reg(y), 0)),
        Op::And(x, y) => Ok(s.set_reg_flag(x, s.reg(x) & s.reg(y), 0)),
        Op::Xor(x, y) => Ok(s.set_reg_flag(x, s.reg(x) ^ s.reg(y), 0)),
        Op::AddReg(x, y) => {
            let sum = s.reg(x) + s.reg(y);
            Ok(s.set_reg_flag(x, (sum % 256) as u8, if sum > 255 { 1 } else { 0 }))
        },
        Op::SubReg(x, y) => Ok(
            s.set_reg_flag(
                x,
                sub_wrap(s.reg(x), s.reg(y)),
                if s.reg(x) >= s.reg(y) { 1 } else { 0 },
            ),
        ),
        Op::ShiftRight(x, y) => Ok(s.set_reg_flag(x, s.reg(y) / 2, s.reg(y) % 2)),
        Op::SubRev(x, y) => Ok(
            s.set_reg_flag(
                x,
                sub_wrap(s.reg(y), s.reg(x)),
                if s.reg(y) >= s.reg(x) { 1 } else { 0 },
            ),
        ),
        Op::ShiftLeft(x, y) => Ok(
            s.set_reg_flag(x, ((s.reg(y) * 2) % 256) as u8, s.reg(y) / 128),
        ),
        Op::SetIndex(a) => Ok(MachineState { ir: a, ..s }),
        Op::JumpOffset(a) => Ok(MachineState { pc: ((a + s.reg(0)) % 4096) as u16, ..s }),
        Op::Random(x, k) => Ok(s.set_reg(x, rnd & k)),
        Op::Draw(x, y, n) => {
            let x0 = s.reg(x) % 64;
            let y0 = s.reg(y) % 32;
            let hit = sprite_collides(s.fb, s.mem, s.ir, x0 as int, y0 as int, n as int);
            Ok(
                MachineState {
                    fb: sprite_drawn(s.fb, s.mem, s.ir, x0 as int, y0 as int, n as int),
                    ..s.set_reg(15, if hit { 1 } else { 0 })
                },
            )
        },
        Op::SkipKey(x) => Ok(s.skip_if(s.keys[(s.reg(x) % 16) as int])),
        Op::SkipNoKey(x) => Ok(s.skip_if(!s.keys[(s.reg(x) % 16) as int])),
        Op::GetDelay(x) => Ok(s.set_reg(x, s.delay)),
        Op::WaitKey(x) => Ok(poll_key(s, x)),
        Op::SetDelay(x) => Ok(MachineState { delay: s.reg(x), ..s }),
        Op::SetSound(x) => Ok(MachineState { sound: s.reg(x), ..s }),
        Op::AddIndex(x) => {
            let i = ((s.ir + s.reg(x)) % 65536) as u16;
            Ok(MachineState { ir: i, ..s.set_reg(15, if i > 0xFFF { 1 } else { 0 }) })
        },
        Op::FontChar(x) => Ok(MachineState { ir: (s.reg(x) * 5) as u16, ..s }),
        Op::Bcd(x) => {
            let v = s.reg(x);
            Ok(
                MachineState {
                    mem: s.mem.update(mem_addr(s.ir, 0), v / 100).update(
                        mem_addr(s.ir, 1),
                        (v % 100) / 10,
                    ).update(mem_addr(s.ir, 2), v % 10),
                    ..s
                },
            )
        },
        Op::StoreRegs(x) => Ok(
            MachineState {
                mem: regs_stored(s.mem, s.regs, s.ir, x),
                ir: ((s.ir + x + 1) % 65536) as u16,
                ..s
            },
        ),
        Op::LoadRegs(x) => Ok(
            MachineState {
                regs: regs_loaded(s.regs, s.mem, s.ir, x),
                ir: ((s.ir + x + 1) % 65536) as u16,
                ..s
            },
        ),
    }
}

/// The effect of one `step`: a blocked machine polls the keypad; a running
/// one fetches the word at the program counter, decodes it, moves past it and
/// executes it. An error leaves the machine as it was.
pub open spec fn step_spec(s: MachineState, rnd: u8) -> Result<MachineState, Chip8Error> {
    match s.waiting {
        Some(x) => Ok(poll_key(s, x)),
        None => match decode_spec(s.fetch_word()) {
            Err(e) => Err(e),
            Ok(op) => exec_op(MachineState { pc: ((s.pc + 2) % 4096) as u16, ..s }, op, rnd),
        },
    }
}

/// Which part of `execute` carries out an instruction: 0 for control flow,
/// 1 for register arithmetic, 2 for the display and memory, 3 for the rest.
spec fn op_group(op: Op) -> int {
    match op {
        Op::Clear | Op::Return | Op::Jump(..) | Op::Call(..) | Op::SkipEqImm(..)
        | Op::SkipNeImm(..) | Op::SkipEqReg(..) | Op::SkipNeReg(..) | Op::JumpOffset(..)
        | Op::SkipKey(..) | Op::SkipNoKey(..) => 0,
        Op::LoadImm(..) | Op::AddImm(..) | Op::Move(..) | Op::Or(..) | Op::And(..) | Op::Xor(..)
        | Op::AddReg(..) | Op::SubReg(..) | Op::ShiftRight(..) | Op::SubRev(..)
        | Op::ShiftLeft(..) | Op::Random(..) => 1,
        Op::Draw(..) | Op::Bcd(..) | Op::StoreRegs(..) | Op::LoadRegs(..) => 2,
        _ => 3,
    }
}

/// Whether sprite pixel `p` comes before row `i`, column `k` of the sprite
/// in drawing order.
spec fn drawn_before(p: int, x0: int, y0: int, i: int, k: int) -> bool {
    let r = p / 64 - y0;
    let c = p % 64 - x0;
    r < i || (r == i && c < k)
}

spec fn sprite_drawn_upto(
    fb: Seq<bool>,
    mem: Seq<u8>,
    ir: u16,
    x0: int,
    y0: int,
    n: int,
    i: int,
    k: int,
) -> Seq<bool> {
    Seq::new(
        fb.len(),
        |p: int| fb[p] != (sprite_covers(mem, ir, x0, y0, n, p) && drawn_before(p, x0, y0, i, k)),
    )
}

spec fn sprite_collides_upto(
    fb: Seq<bool>,
    mem: Seq<u8>,
    ir: u16,
    x0: int,
    y0: int,
    n: int,
    i: int,
    k: int,
) -> bool {
    exists|p: int|
        0 <= p < fb.len() && fb[p] && sprite_covers(mem, ir, x0, y0, n, p) && drawn_before(
            p,
            x0,
            y0,
            i,
            k,
        )
}

spec fn regs_stored_upto(mem: Seq<u8>, regs: Seq<u8>, ir: u16, i: int) -> Seq<u8> {
    Seq::new(
        mem.len(),
        |a: int|
            {
                let k = (a - ir) % 4096;
                if k < i {
                    regs[k]
                } else {
                    mem[a]
                }
            },
    )
}

spec fn regs_loaded_upto(regs: Seq<u8>, mem: Seq<u8>, ir: u16, i: int) -> Seq<u8> {
    Seq::new(regs.len(), |j: int| if j < i { mem[mem_addr(ir, j)] } else { regs[j] })
}

/// The display of `s` once the sprite has been drawn up to row `i`, column `k`.
spec fn drawn_upto(s: MachineState, x0: u16, y0: u16, n: u8, i: int, k: int) -> Seq<bool> {
    sprite_drawn_upto(s.fb, s.mem, s.ir, x0 as int, y0 as int, n as int, i, k)
}

/// Whether drawing the sprite up to row `i`, column `k` turned a lit pixel dark.
spec fn collides_upto(s: MachineState, x0: u16, y0: u16, n: u8, i: int, k: int) -> bool {
    sprite_collides_upto(s.fb, s.mem, s.ir, x0 as int, y0 as int, n as int, i, k)
}

proof fn lemma_mem_offset(ir: u16, a: int, i: int)
    requires
        0 <= a < 4096,
        0 <= i < 4096,
    ensures
        ((a - ir) % 4096 == i) == (a == mem_addr(ir, i)),
{
}

proof fn lemma_pixel_split(r: int, c: int)
    requires
        0 <= c < 64,
    ensures
        (r * 64 + c) / 64 == r,
        (r * 64 + c) % 64 == c,
{
}

/// Relies on rand::random: a byte from the thread-local generator. Nothing is
/// known of its value.
#[verifier::external_body]
fn random_byte() -> (r: u8) {
    rand::random::<u8>()
}

/// Whether a `step` from `s` with random byte `rnd` may return `r` and leave
/// the machine in state `t`: on success `t` is the next state, on an error
/// the machine is unchanged.
pub open spec fn step_outcome(
    s: MachineState,
    rnd: u8,
    r: Result<(), Chip8Error>,
    t: MachineState,
) -> bool {
    match step_spec(s, rnd) {
        Ok(u) => r is Ok && t == u,
        Err(e) => r == Err::<(), _>(e) && t == s,
    }
}

fn wrapping_sub_u8(a: u8, b: u8) -> (r: u8)
    ensures
        r == sub_wrap(a, b),
{
    if a >= b {
        a - b
    } else {
        (a as u16 + 256 - b as u16) as u8
    }
}

fn font_bytes() -> (r: [u8; 80])
    ensures
        r@ == font(),
{
    let r: [u8; 80] = [
        0xF0, 0x90, 0x90, 0x90, 0xF0, 0x20, 0x60, 0x20, 0x20, 0x70,
        0xF0, 0x10, 0xF0, 0x80, 0xF0, 0xF0, 0x10, 0xF0, 0x10, 0xF0,
        0x90, 0x90, 0xF0, 0x10, 0x10, 0xF0, 0x80, 0xF0, 0x10, 0xF0,
        0xF0, 0x80, 0xF0, 0x90, 0xF0, 0xF0, 0x10, 0x20, 0x40, 0x40,
        0xF0, 0x90, 0xF0, 0x90, 0xF0, 0xF0, 0x90, 0xF0, 0x10, 0xF0,
        0xF0, 0x90, 0xF0, 0x90, 0x90, 0xE0, 0x90, 0xE0, 0x90, 0xE0,
        0xF0, 0x80, 0x80, 0x80, 0xF0, 0xE0, 0x90, 0x90, 0x90, 0xE0,
        0xF0, 0x80, 0xF0, 0x80, 0xF0, 0xF0, 0x80, 0xF0, 0x80, 0x80,
    ];
    assert(r@ =~= font());
    r
}

/// The interpreter: memory, display, registers, call stack, timers and
/// keypad.
pub struct Chip8 {
    sram: Memory,
    vpu: VPU,
    regs: [u8; 16],
    stack: [u16; 16],
    ir: u16,
    pc: u16,
    sp: u8,
    dt: Timer,
    st: Timer,
    keypad: Keypad,
    waiting: Option<u8>,
}

impl View for Chip8 {
    type V = MachineState;

    closed spec fn view(&self) -> MachineState {
        MachineState {
            mem: self.sram@,
            fb: self.vpu@,
            regs: self.regs@,
            stack: self.stack@,
            ir: self.ir,
            pc: self.pc,
            sp: self.sp,
            delay: self.dt@,
            sound: self.st@,
            keys: self.keypad.keys(),
            key_changed: self.keypad.dirty(),
            waiting: self.waiting,
        }
    }
}

impl Default for Chip8 {
    fn default() -> (r: Chip8)
        ensures
            r.wf(),
            r@ == initial_state(),
    {
        Chip8::new()
    }
}

impl Chip8 {
    pub closed spec fn wf(&self) -> bool {
        &&& self@.wf()
        &&& self.sram.wf()
        &&& self.vpu.wf()
        &&& self.vpu.width() == 64
        &&& self.vpu.height() == 32
    }

    /// A machine with the font installed, empty program memory, a dark
    /// display and the program counter at the load address.
    pub fn new() -> (r: Chip8)
        ensures
            r.wf(),
            r@ == initial_state(),
    {
        let mut sram = Memory::new(MEM_SIZE);
        let font = font_bytes();
        sram.load(0, font.as_slice());
        let keypad = Keypad::default();
        proof {
            keypad.lemma_keys_len();
        }
        let r = Chip8 {
            sram,
            vpu: VPU::new(64, 32),
            regs: [0; 16],
            stack: [0; 16],
            ir: 0,
            pc: PROGRAM_START,
            sp: 0,
            dt: Timer::default(),
            st: Timer::default(),
            keypad,
            waiting: None,
        };
        assert(r@.mem =~= initial_state().mem);
        assert(r@.regs =~= initial_state().regs);
        assert(r@.stack =~= initial_state().stack);
        assert(r@.fb =~= initial_state().fb);
        r
    }

    /// A fresh machine with `rom` loaded.
    pub fn with_rom(rom: &[u8]) -> (r: Result<Chip8, Chip8Error>)
        ensures
            rom@.len() > 0xE00 <==> r is Err,
            r is Err ==> r == Err::<Chip8, _>(Chip8Error::RomTooLarge),
            r matches Ok(c) ==> c.wf() && c@ == load_rom(initial_state(), rom@),
    {
        let mut c = Chip8::new();
        match c.load(rom) {
            Ok(()) => Ok(c),
            Err(e) => Err(e),
        }
    }

    /// Reinstalls the font at address 0 and copies `rom` into memory from the
    /// load address on; a program that does not fit is refused and nothing
    /// changes.
    pub fn load(&mut self, rom: &[u8]) -> (r: Result<(), Chip8Error>)
        requires
            old(self).wf(),
        ensures
            final(self).wf(),
            rom@.len() > 0xE00 <==> r is Err,
            r is Err ==> r == Err::<(), _>(Chip8Error::RomTooLarge) && final(self)@ == old(self)@,
            r is Ok ==> final(self)@ == load_rom(old(self)@, rom@),
    {
        if rom.len() > 0xE00 {
            return Err(Chip8Error::RomTooLarge);
        }
        let ghost s = self@;
        let font = font_bytes();
        self.sram.load(0, font.as_slice());
        self.sram.load(PROGRAM_START, rom);
        assert(self@.mem =~= load_rom(s, rom@).mem);
        Ok(())
    }

    /// A well-formed machine has a well-formed state: sixteen registers and
    /// stack slots, 4096 memory cells, 2048 pixels, sixteen keys, and the
    /// program counter and return addresses inside memory.
    pub proof fn lemma_view_wf(&self)
        requires
            self.wf(),
        ensures
            self@.wf(),
            self@.keys.len() == 16,
    {
        self.keypad.lemma_keys_len();
    }

    pub fn pc(&self) -> (r: u16)
        ensures
            r == self@.pc,
    {
        self.pc
    }

    /// The index register I.
    pub fn index(&self) -> (r: u16)
        ensures
            r == self@.ir,
    {
        self.ir
    }

    /// Register `Vi`.
    pub fn register(&self, i: u8) -> (r: u8)
        requires
            i < 16,
        ensures
            r == self@.regs[i as int],
    {
        self.regs[i as usize]
    }

    /// The memory cell at `addr`.
    pub fn read_memory(&self, addr: u16) -> (r: u8)
        requires
            self.wf(),
            addr < MEM_SIZE,
        ensures
            r == self@.mem[addr as int],
    {
        self.sram.read(addr)
    }

    pub fn delay_timer(&self) -> (r: u8)
        ensures
            r == self@.delay,
    {
        self.dt.value()
    }

    pub fn sound_timer(&self) -> (r: u8)
        ensures
            r == self@.sound,
    {
        self.st.value()
    }

    /// Whether the machine is blocked waiting for a key press.
    pub fn is_waiting(&self) -> (r: bool)
        ensures
            r == self@.waiting is Some,
    {
        self.waiting.is_some()
    }

    /// The display.
    pub fn vpu(&self) -> (r: &VPU)
        requires
            self.wf(),
        ensures
            r.wf(),
            r.width() == 64,
            r.height() == 32,
            r@ == self@.fb,
    {
        &self.vpu
    }

    /// The keypad, for the input source to update.
    pub fn keypad_mut(&mut self) -> (r: &mut Keypad)
        requires
            old(self).wf(),
        ensures
            r.keys() == old(self)@.keys,
            r.dirty() == old(self)@.key_changed,
            final(self).wf(),
            final(self)@ == (MachineState {
                keys: final(r).keys(),
                key_changed: final(r).dirty(),
                ..old(self)@
            }),
    {
        &mut self.keypad
    }

    fn fetch_word(&self) -> (r: u16)
        requires
            self.wf(),
        ensures
            r == self@.fetch_word(),
    {
        let high = self.sram.read(self.pc) as u16;
        let low = self.sram.read((self.pc + 1) % MEM_SIZE) as u16;
        high * 256 + low
    }

    /// Consumes the keypad's change flag; on a change with some key down,
    /// stores the lowest such key in `Vx` and stops waiting.
    fn poll_key(&mut self, x: u8)
        requires
            old(self).wf(),
            x < 16,
        ensures
            final(self).wf(),
            final(self)@ == poll_key(old(self)@, x),
    {
        proof {
            self.keypad.lemma_keys_len();
        }
        if self.keypad.has_changed() {
            let mut i: u8 = 0;
            while i < 16
                invariant
                    self.wf(),
                    x < 16,
                    i <= 16,
                    self.keypad.keys() == old(self)@.keys,
                    old(self)@.keys.len() == 16,
                    self@ == (MachineState { key_changed: false, ..old(self)@ }),
                    old(self)@.key_changed,
                    first_pressed(old(self)@.keys) == first_pressed_from(old(self)@.keys, i as nat),
                decreases 16 - i,
            {
                if self.keypad.get_state(i) {
                    self.regs[x as usize] = i;
                    self.waiting = None;
                    return;
                }
                i = i + 1;
            }
        }
        self.waiting = Some(x);
    }

    /// XOR-draws the `n`-row sprite at memory address I with its top-left
    /// corner at (x0, y0); returns whether a lit pixel went dark.
    fn draw_sprite(&mut self, x0: u16, y0: u16, n: u8) -> (hit: bool)
        requires
            old(self).wf(),
            x0 < 64,
            y0 < 32,
            n < 16,
        ensures
            final(self).wf(),
            ({
                let s = old(self)@;
                &&& final(self)@ == (MachineState {
                    fb: sprite_drawn(s.fb, s.mem, s.ir, x0 as int, y0 as int, n as int),
                    ..s
                })
                &&& hit == sprite_collides(s.fb, s.mem, s.ir, x0 as int, y0 as int, n as int)
            }),
    {
        let ghost s = self@;
        let mut hit = false;
        let mut i: u8 = 0;
        assert(self@.fb =~= drawn_upto(s, x0, y0, n, 0, 0));
        while i < n
            invariant
                self.wf(),
                x0 < 64,
                y0 < 32,
                n < 16,
                i <= n,
                self@ == (MachineState {
                    fb: drawn_upto(s, x0, y0, n, i as int, 0),
                    ..s
                }),
                hit == collides_upto(s, x0, y0, n, i as int, 0),
            decreases n - i,
        {
            let row = y0 + i as u16;
            let b = self.sram.read(((self.ir as usize + i as usize) % 4096) as u16);
            let mut k: u8 = 0;
            while k < 8
                invariant
                    self.wf(),
                    x0 < 64,
                    y0 < 32,
                    n < 16,
                    i < n,
                    k <= 8,
                    row == y0 + i,
                    b == s.mem[mem_addr(s.ir, i as int)],
                    self@ == (MachineState {
                        fb: drawn_upto(s, x0, y0, n, i as int, k as int),
                        ..s
                    }),
                    hit == collides_upto(s, x0, y0, n, i as int, k as int),
                decreases 8 - k,
            {
                let col = x0 + k as u16;
                let ghost before = self@.fb;
                let ghost next = drawn_upto(s, x0, y0, n, i as int, k + 1);
                if row < SCREEN_H && col < SCREEN_W {
                    let px = b & (0x80u8 >> k) != 0;
                    let ghost q = row * 64 + col;
                    proof {
                        lemma_pixel_split(row as int, col as int);
                    }
                    let c = self.vpu.write((col, row), px);
                    proof {
                        assert forall|p: int| 0 <= p < 2048 implies #[trigger] next[p]
                            == self@.fb[p] by {
                            if p != q {
                                if p / 64 == row && p % 64 == col {
                                    assert(p == (p / 64) * 64 + p % 64);
                                }
                            }
                        }
                        assert(self@.fb =~= next);
                        if c {
                            assert(s.fb[q] && sprite_covers(
                        s.mem,
                        s.ir,
                        x0 as int,
                        y0 as int,
                        n as int,
                        q,
                    ));
                        }
                    }
                    if c {
                        hit = true;
                    }
                } else {
                    proof {
                        assert(self@.fb =~= next);
                    }
                }
                k = k + 1;
            }
            proof {
                assert(self@.fb =~= drawn_upto(s, x0, y0, n, i + 1, 0));
            }
            i = i + 1;
        }
        proof {
            assert(self@.fb =~= sprite_drawn(s.fb, s.mem, s.ir, x0 as int, y0 as int, n as int));
        }
        hit
    }

    /// Stores `V0..=Vx` from address I on and moves I past them.
    fn store_regs(&mut self, x: u8)
        requires
            old(self).wf(),
            x < 16,
        ensures
            final(self).wf(),
            final(self)@ == (MachineState {
                mem: regs_stored(old(self)@.mem, old(self)@.regs, old(self)@.ir, x),
                ir: ((old(self)@.ir + x + 1) % 65536) as u16,
                ..old(self)@
            }),
    {
        let ghost s = self@;
        let mut i: u8 = 0;
        assert(self@.mem =~= regs_stored_upto(s.mem, s.regs, s.ir, 0));
        while i <= x
            invariant
                self.wf(),
                x < 16,
                i <= x + 1,
                self@ == (MachineState {
                    mem: regs_stored_upto(s.mem, s.regs, s.ir, i as int),
                    ..s
                }),
            decreases x + 1 - i,
        {
            let a = ((self.ir as usize + i as usize) % 4096) as u16;
            let v = self.regs[i as usize];
            self.sram.write(a, v);
            proof {
                let next = regs_stored_upto(s.mem, s.regs, s.ir, i + 1);
                assert forall|b: int| 0 <= b < 4096 implies #[trigger] next[b] == self@.mem[b] by {
                    lemma_mem_offset(s.ir, b, i as int);
                }
                assert(self@.mem =~= next);
            }
            i = i + 1;
        }
        self.ir = self.ir.wrapping_add(x as u16 + 1);
        assert(self@.mem =~= regs_stored(s.mem, s.regs, s.ir, x));
    }

    /// Loads `V0..=Vx` from address I on and moves I past them.
    fn load_regs(&mut self, x: u8)
        requires
            old(self).wf(),
            x < 16,
        ensures
            final(self).wf(),
            final(self)@ == (MachineState {
                regs: regs_loaded(old(self)@.regs, old(self)@.mem, old(self)@.ir, x),
                ir: ((old(self)@.ir + x + 1) % 65536) as u16,
                ..old(self)@
            }),
    {
        let ghost s = self@;
        let mut i: u8 = 0;
        assert(self@.regs =~= regs_loaded_upto(s.regs, s.mem, s.ir, 0));
        while i <= x
            invariant
                self.wf(),
                x < 16,
                i <= x + 1,
                self@ == (MachineState {
                    regs: regs_loaded_upto(s.regs, s.mem, s.ir, i as int),
                    ..s
                }),
            decreases x + 1 - i,
        {
            let a = ((self.ir as usize + i as usize) % 4096) as u16;
            self.regs[i as usize] = self.sram.read(a);
            i = i + 1;
            assert(self@.regs =~= regs_loaded_upto(s.regs, s.mem, s.ir, i as int));
        }
        self.ir = self.ir.wrapping_add(x as u16 + 1);
        assert(self@.regs =~= regs_loaded(s.regs, s.mem, s.ir, x));
    }

    /// Carries out one decoded instruction; the program counter already
    /// points past it.
    fn execute(&mut self, op: Op, rnd: u8)
        requires
            old(self).wf(),
            op_wf(op),
            exec_op(old(self)@, op, rnd) is Ok,
        ensures
            final(self).wf(),
            exec_op(old(self)@, op, rnd) == Ok::<_, Chip8Error>(final(self)@),
    {
        match op {
            Op::Clear | Op::Return | Op::Jump(..) | Op::Call(..) | Op::SkipEqImm(..)
            | Op::SkipNeImm(..) | Op::SkipEqReg(..) | Op::SkipNeReg(..) | Op::JumpOffset(..)
            | Op::SkipKey(..) | Op::SkipNoKey(..) => self.execute_flow(op, rnd),
            Op::LoadImm(..) | Op::AddImm(..) | Op::Move(..) | Op::Or(..) | Op::And(..)
            | Op::Xor(..) | Op::AddReg(..) | Op::SubReg(..) | Op::ShiftRight(..)
            | Op::SubRev(..) | Op::ShiftLeft(..) | Op::Random(..) => self.execute_alu(op, rnd),
            Op::Draw(..) | Op::Bcd(..) | Op::StoreRegs(..) | Op::LoadRegs(..) => {
                self.execute_mem(op, rnd)
            },
            _ => self.execute_misc(op, rnd),
        }
    }

    /// Instructions that clear the screen or move the program counter.
    #[verifier::rlimit(100)]
    fn execute_flow(&mut self, op: Op, rnd: u8)
        requires
            old(self).wf(),
            op_wf(op),
            exec_op(old(self)@, op, rnd) is Ok,
            op_group(op) == 0,
        ensures
            final(self).wf(),
            exec_op(old(self)@, op, rnd) == Ok::<_, Chip8Error>(final(self)@),
    {
        let ghost s = self@;
        proof {
            self.keypad.lemma_keys_len();
        }
        match op {
            Op::Clear => {
                self.vpu.clear();
            },
            Op::Return => {
                self.pc = self.stack[self.sp as usize];
                self.sp = self.sp - 1;
            },
            Op::Jump(a) => {
                self.pc = a;
            },
            Op::Call(a) => {
                self.sp = self.sp + 1;
                self.stack[self.sp as usize] = self.pc;
                self.pc = a;
            },
            Op::SkipEqImm(x, k) => {
                if self.regs[x as usize] == k {
                    self.skip();
                }
            },
            Op::SkipNeImm(x, k) => {
                if self.regs[x as usize] != k {
                    self.skip();
                }
            },
            Op::SkipEqReg(x, y) => {
                if self.regs[x as usize] == self.regs[y as usize] {
                    self.skip();
                }
            },
            Op::SkipNeReg(x, y) => {
                if self.regs[x as usize] != self.regs[y as usize] {
                    self.skip();
                }
            },
            Op::JumpOffset(a) => {
                self.pc = (a + self.regs[0] as u16) % MEM_SIZE;
            },
            Op::SkipKey(x) => {
                if self.keypad.get_state(self.regs[x as usize] % 16) {
                    self.skip();
                }
            },
            Op::SkipNoKey(x) => {
                if !self.keypad.get_state(self.regs[x as usize] % 16) {
                    self.skip();
                }
            },
            _ => {},
        }
        proof {
            let t = exec_op(s, op, rnd)->Ok_0;
            assert(self@.fb =~= t.fb);
            assert(self@.stack =~= t.stack);
        }
    }

    /// Instructions that compute into the registers.
    #[verifier::rlimit(100)]
    fn execute_alu(&mut self, op: Op, rnd: u8)
        requires
            old(self).wf(),
            op_wf(op),
            exec_op(old(self)@, op, rnd) is Ok,
            op_group(op) == 1,
        ensures
            final(self).wf(),
            exec_op(old(self)@, op, rnd) == Ok::<_, Chip8Error>(final(self)@),
    {
        let ghost s = self@;
        proof {
            self.keypad.lemma_keys_len();
        }
        match op {
            Op::LoadImm(x, k) => {
                self.regs[x as usize] = k;
            },
            Op::AddImm(x, k) => {
                self.regs[x as usize] = ((self.regs[x as usize] as u16 + k as u16) % 256) as u8;
            },
            Op::Move(x, y) => {
                self.regs[x as usize] = self.regs[y as usize];
            },
            Op::Or(x, y) => {
                self.regs[x as usize] = self.regs[x as usize] | self.regs[y as usize];
                self.regs[15] = 0;
            },
            Op::And(x, y) => {
                self.regs[x as usize] = self.regs[x as usize] & self.regs[y as usize];
                self.regs[15] = 0;
            },
            Op::Xor(x, y) => {
                self.regs[x as usize] = self.regs[x as usize] ^ self.regs[y as usize];
                self.regs[15] = 0;
            },
            Op::AddReg(x, y) => {
                let sum = self.regs[x as usize] as u16 + self.regs[y as usize] as u16;
                self.regs[x as usize] = (sum % 256) as u8;
                self.regs[15] = if sum > 255 { 1 } else { 0 };
            },
            Op::SubReg(x, y) => {
                let (a, b) = (self.regs[x as usize], self.regs[y as usize]);
                self.regs[x as usize] = wrapping_sub_u8(a, b);
                self.regs[15] = if a >= b { 1 } else { 0 };
            },
            Op::ShiftRight(x, y) => {
                let b = self.regs[y as usize];
                self.regs[x as usize] = b / 2;
                self.regs[15] = b % 2;
            },
            Op::SubRev(x, y) => {
                let (a, b) = (self.regs[x as usize], self.regs[y as usize]);
                self.regs[x as usize] = wrapping_sub_u8(b, a);
                self.regs[15] = if b >= a { 1 } else { 0 };
            },
            Op::ShiftLeft(x, y) => {
                let b = self.regs[y as usize];
                self.regs[x as usize] = ((b as u16 * 2) % 256) as u8;
                self.regs[15] = b / 128;
            },
            Op::Random(x, k) => {
                self.regs[x as usize] = rnd & k;
            },
            _ => {},
        }
        proof {
            let t = exec_op(s, op, rnd)->Ok_0;
            assert(self@.regs =~= t.regs);
        }
    }

    /// Instructions on the index register, the timers and the keypad.
    #[verifier::rlimit(100)]
    fn execute_misc(&mut self, op: Op, rnd: u8)
        requires
            old(self).wf(),
            op_wf(op),
            exec_op(old(self)@, op, rnd) is Ok,
            op_group(op) == 3,
        ensures
            final(self).wf(),
            exec_op(old(self)@, op, rnd) == Ok::<_, Chip8Error>(final(self)@),
    {
        let ghost s = self@;
        proof {
            self.keypad.lemma_keys_len();
        }
        match op {
            Op::SetIndex(a) => {
                self.ir = a;
            },
            Op::GetDelay(x) => {
                self.regs[x as usize] = self.dt.value();
                assert(self@.regs =~= exec_op(s, op, rnd)->Ok_0.regs);
            },
            Op::WaitKey(x) => {
                self.poll_key(x);
            },
            Op::SetDelay(x) => {
                self.dt.reload(self.regs[x as usize]);
            },
            Op::SetSound(x) => {
                self.st.reload(self.regs[x as usize]);
            },
            Op::AddIndex(x) => {
                self.ir = ((self.ir as u32 + self.regs[x as usize] as u32) % 65536) as u16;
                self.regs[15] = if self.ir > 0xFFF { 1 } else { 0 };
                assert(self@.regs =~= exec_op(s, op, rnd)->Ok_0.regs);
            },
            Op::FontChar(x) => {
                self.ir = self.regs[x as usize] as u16 * 5;
            },
            _ => {},
        }
    }

    /// Instructions that draw or move bytes between registers and memory.
    #[verifier::rlimit(100)]
    fn execute_mem(&mut self, op: Op, rnd: u8)
        requires
            old(self).wf(),
            op_wf(op),
            exec_op(old(self)@, op, rnd) is Ok,
            op_group(op) == 2,
        ensures
            final(self).wf(),
            exec_op(old(self)@, op, rnd) == Ok::<_, Chip8Error>(final(self)@),
    {
        let ghost s = self@;
        proof {
            self.keypad.lemma_keys_len();
        }
        match op {
            Op::Draw(x, y, n) => {
                let x0 = self.regs[x as usize] as u16 % SCREEN_W;
                let y0 = self.regs[y as usize] as u16 % SCREEN_H;
                let hit = self.draw_sprite(x0, y0, n);
                self.regs[15] = if hit { 1 } else { 0 };
            },
            Op::Bcd(x) => {
                let v = self.regs[x as usize];
                let base = self.ir as usize;
                self.sram.write((base % 4096) as u16, v / 100);
                self.sram.write(((base + 1) % 4096) as u16, (v % 100) / 10);
                self.sram.write(((base + 2) % 4096) as u16, v % 10);
            },
            Op::StoreRegs(x) => {
                self.store_regs(x);
            },
            Op::LoadRegs(x) => {
                self.load_regs(x);
            },
            _ => {},
        }
        proof {
            let t = exec_op(s, op, rnd)->Ok_0;
            assert(self@.regs =~= t.regs);
            assert(self@.mem =~= t.mem);
            assert(self@.fb =~= t.fb);
        }
    }

    /// Moves the program counter past the next instruction.
    fn skip(&mut self)
        requires
            old(self).wf(),
        ensures
            final(self).wf(),
            final(self)@ == old(self)@.skip_if(true),
    {
        self.pc = (self.pc + 2) % MEM_SIZE;
    }

    /// Executes one instruction, or, while waiting for a key, polls the
    /// keypad once; `rnd` is the random byte that `Cxkk` uses.
    pub fn step_with_random(&mut self, rnd: u8) -> (r: Result<(), Chip8Error>)
        requires
            old(self).wf(),
        ensures
            final(self).wf(),
            step_outcome(old(self)@, rnd, r, final(self)@),
    {
        if let Some(x) = self.waiting {
            self.poll_key(x);
            return Ok(());
        }
        let w = self.fetch_word();
        let op = match decode(w) {
            Ok(op) => op,
            Err(e) => return Err(e),
        };
        proof {
            lemma_decode_wf(w);
        }
        match op {
            Op::Return => {
                if self.sp == 0 {
                    return Err(Chip8Error::StackUnderflow);
                }
            },
            Op::Call(_) => {
                if self.sp >= 15 {
                    return Err(Chip8Error::StackOverflow);
                }
            },
            _ => {},
        }
        self.pc = (self.pc + 2) % MEM_SIZE;
        self.execute(op, rnd);
        Ok(())
    }

    /// Executes one instruction, or, while waiting for a key, polls the
    /// keypad once. `Cxkk` draws its byte from the thread-local random
    /// generator; whatever byte that is, the step is the one `step_spec`
    /// gives for it.
    pub fn step(&mut self) -> (r: Result<(), Chip8Error>)
        requires
            old(self).wf(),
        ensures
            final(self).wf(),
            exists|rnd: u8| #[trigger] step_outcome(old(self)@, rnd, r, final(self)@),
    {
        let rnd = random_byte();
        self.step_with_random(rnd)
    }

    /// One tick of the 60 Hz clock: both timers count down.
    pub fn tick(&mut self)
        requires
            old(self).wf(),
        ensures
            final(self).wf(),
            final(self)@ == (MachineState {
                delay: tick_value(old(self)@.delay),
                sound: tick_value(old(self)@.sound),
                ..old(self)@
            }),
    {
        self.dt.tick();
        self.st.tick();
    }
}

/// `8xy4` with `x` other than F: `Vx` becomes the sum of the two registers
/// modulo 256, and `VF` is 1 exactly when the sum exceeds 255, else 0.
pub proof fn lemma_add_sets_carry(s: MachineState, rnd: u8)
    requires
        s.wf(),
        s.waiting is None,
        word_opcode(s.fetch_word()) == 8,
        word_n(s.fetch_word()) == 4,
        word_x(s.fetch_word()) != 15,
    ensures
        ({
            let x = word_x(s.fetch_word());
            let y = word_y(s.fetch_word());
            let sum = s.reg(x) + s.reg(y);
            &&& step_spec(s, rnd) is Ok
            &&& step_spec(s, rnd)->Ok_0.reg(x) == sum % 256
            &&& step_spec(s, rnd)->Ok_0.reg(15) == if sum > 255 { 1u8 } else { 0u8 }
        }),
{
    let w = s.fetch_word();
    assert(w != 0x00E0 && w != 0x00EE);
    assert(decode_spec(w) == Ok::<_, Chip8Error>(Op::AddReg(word_x(w), word_y(w))));
}

/// `8xy5` with `x` other than F: `Vx` becomes `Vx - Vy` modulo 256, and `VF`
/// is 1 exactly when `Vx >= Vy` before the subtraction, else 0.
pub proof fn lemma_sub_sets_no_borrow(s: MachineState, rnd: u8)
    requires
        s.wf(),
        s.waiting is None,
        word_opcode(s.fetch_word()) == 8,
        word_n(s.fetch_word()) == 5,
        word_x(s.fetch_word()) != 15,
    ensures
        ({
            let x = word_x(s.fetch_word());
            let y = word_y(s.fetch_word());
            let (a, b) = (s.reg(x), s.reg(y));
            &&& step_spec(s, rnd) is Ok
            &&& step_spec(s, rnd)->Ok_0.reg(x) == (a - b) % 256
            &&& step_spec(s, rnd)->Ok_0.reg(15) == if a >= b { 1u8 } else { 0u8 }
        }),
{
    let w = s.fetch_word();
    assert(w != 0x00E0 && w != 0x00EE);
    assert(decode_spec(w) == Ok::<_, Chip8Error>(Op::SubReg(word_x(w), word_y(w))));
    let (a, b) = (s.reg(word_x(w)), s.reg(word_y(w)));
    assert(sub_wrap(a, b) == (a - b) % 256);
}

/// Drawing a sprite twice in the same place restores the display. The first
/// draw reports a collision exactly when the sprite covers a lit pixel; the
/// second exactly when the first lit a pixel that was dark.
pub proof fn lemma_draw_twice(s: MachineState, x: u8, y: u8, n: u8, rnd: u8)
    requires
        s.wf(),
        x < 15,
        y < 15,
        n < 16,
    ensures
        ({
            let s1 = exec_op(s, Op::Draw(x, y, n), rnd)->Ok_0;
            let s2 = exec_op(s1, Op::Draw(x, y, n), rnd)->Ok_0;
            let (x0, y0) = ((s.reg(x) % 64) as int, (s.reg(y) % 32) as int);
            &&& s2.fb == s.fb
            &&& (s1.reg(15) == 1) == sprite_collides(s.fb, s.mem, s.ir, x0, y0, n as int)
            &&& (s2.reg(15) == 1) == exists|p: int|
                0 <= p < s.fb.len() && !s.fb[p] && sprite_covers(s.mem, s.ir, x0, y0, n as int, p)
        }),
{
    let s1 = exec_op(s, Op::Draw(x, y, n), rnd)->Ok_0;
    let s2 = exec_op(s1, Op::Draw(x, y, n), rnd)->Ok_0;
    let (x0, y0) = ((s.reg(x) % 64) as int, (s.reg(y) % 32) as int);
    assert(s1.reg(x) == s.reg(x) && s1.reg(y) == s.reg(y));
    assert(s2.fb =~= s.fb);
    if s2.reg(15) == 1 {
        let p = choose|p: int|
            0 <= p < s1.fb.len() && s1.fb[p] && sprite_covers(s.mem, s.ir, x0, y0, n as int, p);
        assert(!s.fb[p]);
    }
    if exists|p: int|
        0 <= p < s.fb.len() && !s.fb[p] && sprite_covers(s.mem, s.ir, x0, y0, n as int, p) {
        let p = choose|p: int|
            0 <= p < s.fb.len() && !s.fb[p] && sprite_covers(s.mem, s.ir, x0, y0, n as int, p);
        assert(s1.fb[p]);
    }
}

/// Storing `V0..=Vx` at I and then loading `V0..=Vx` back from that same
/// address gives the registers their old values; each of the two
/// instructions moves I forward by `x + 1`.
pub proof fn lemma_store_load_round_trip(s: MachineState, x: u8, rnd: u8)
    requires
        s.wf(),
        x < 16,
    ensures
        ({
            let s1 = exec_op(s, Op::StoreRegs(x), rnd)->Ok_0;
            let s2 = exec_op(MachineState { ir: s.ir, ..s1 }, Op::LoadRegs(x), rnd)->Ok_0;
            &&& s1.ir == (s.ir + x + 1) % 65536
            &&& s2.ir == (s.ir + x + 1) % 65536
            &&& s2.regs == s.regs
        }),
{
    let s1 = exec_op(s, Op::StoreRegs(x), rnd)->Ok_0;
    let s2 = exec_op(MachineState { ir: s.ir, ..s1 }, Op::LoadRegs(x), rnd)->Ok_0;
    assert forall|i: int| 0 <= i < 16 implies #[trigger] s2.regs[i] == s.regs[i] by {
        if i <= x {
            lemma_mem_offset(s.ir, mem_addr(s.ir, i), i);
        }
    }
    assert(s2.regs =~= s.regs);
}

/// The collision a sprite draw reports, bit by bit: some set bit `j` (from the
/// left) of sprite row `i` lands on screen, at column `x0 + j` and row
/// `y0 + i`, on a pixel that is lit.
pub proof fn lemma_collision_by_bits(fb: Seq<bool>, mem: Seq<u8>, ir: u16, x0: int, y0: int, n: int)
    requires
        fb.len() == 2048,
        0 <= x0 < 64,
        0 <= y0 < 32,
    ensures
        sprite_collides(fb, mem, ir, x0, y0, n) == exists|i: int, j: int|
            0 <= i < n && 0 <= j < 8 && x0 + j < 64 && y0 + i < 32 && sprite_bit(
                #[trigger] mem[mem_addr(ir, i)],
                j,
            ) && #[trigger] fb[(y0 + i) * 64 + x0 + j],
{
    if sprite_collides(fb, mem, ir, x0, y0, n) {
        let p = choose|p: int| 0 <= p < fb.len() && fb[p] && sprite_covers(mem, ir, x0, y0, n, p);
        let (i, j) = (p / 64 - y0, p % 64 - x0);
        assert(p == (y0 + i) * 64 + x0 + j);
        assert(sprite_bit(mem[mem_addr(ir, i)], j) && fb[(y0 + i) * 64 + x0 + j]);
    }
    if exists|i: int, j: int|
        0 <= i < n && 0 <= j < 8 && x0 + j < 64 && y0 + i < 32 && sprite_bit(
            #[trigger] mem[mem_addr(ir, i)],
            j,
        ) && #[trigger] fb[(y0 + i) * 64 + x0 + j] {
        let (i, j) = choose|i: int, j: int|
            0 <= i < n && 0 <= j < 8 && x0 + j < 64 && y0 + i < 32 && sprite_bit(
                #[trigger] mem[mem_addr(ir, i)],
                j,
            ) && #[trigger] fb[(y0 + i) * 64 + x0 + j];
        let p = (y0 + i) * 64 + x0 + j;
        lemma_pixel_split(y0 + i, x0 + j);
        assert(sprite_covers(mem, ir, x0, y0, n, p));
    }
}

/// Storing and loading across two steps: a step that executes `Fx55` moves I
/// forward by `x + 1`; a later step that executes `Fx65` with the same `x`,
/// with I back at its value before the store and memory as the store left it,
/// gives `V0..=Vx` their values from before the store, leaves the other
/// registers alone and again moves I forward by `x + 1`.
pub proof fn lemma_store_load_steps(s: MachineState, t: MachineState, rnd: u8)
    requires
        s.wf(),
        t.wf(),
        s.waiting is None,
        t.waiting is None,
        word_opcode(s.fetch_word()) == 0xF,
        word_kk(s.fetch_word()) == 0x55,
        word_opcode(t.fetch_word()) == 0xF,
        word_kk(t.fetch_word()) == 0x65,
        word_x(t.fetch_word()) == word_x(s.fetch_word()),
        t.ir == s.ir,
        step_spec(s, rnd) is Ok ==> t.mem == step_spec(s, rnd)->Ok_0.mem,
    ensures
        ({
            let x = word_x(s.fetch_word());
            &&& step_spec(s, rnd) is Ok
            &&& step_spec(s, rnd)->Ok_0.ir == (s.ir + x + 1) % 65536
            &&& step_spec(t, rnd) is Ok
            &&& step_spec(t, rnd)->Ok_0.ir == (s.ir + x + 1) % 65536
            &&& forall|i: int|
                0 <= i < 16 ==> #[trigger] step_spec(t, rnd)->Ok_0.regs[i] == if i <= x {
                    s.regs[i]
                } else {
                    t.regs[i]
                }
        }),
{
    let (w, v) = (s.fetch_word(), t.fetch_word());
    let x = word_x(w);
    assert(decode_spec(w) == Ok::<_, Chip8Error>(Op::StoreRegs(x)));
    assert(decode_spec(v) == Ok::<_, Chip8Error>(Op::LoadRegs(x)));
    let t2 = step_spec(t, rnd)->Ok_0;
    assert forall|i: int| 0 <= i < 16 implies #[trigger] t2.regs[i] == if i <= x {
        s.regs[i]
    } else {
        t.regs[i]
    } by {
        if i <= x {
            lemma_mem_offset(s.ir, mem_addr(s.ir, i), i);
        }
    }
}

} // verus!
