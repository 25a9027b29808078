use vstd::prelude::*;

verus! {

/// Bytes of addressable memory.
pub const MEMORY_SIZE: usize = 4096;

/// Address at which a program image is placed.
pub const PROGRAM_START: usize = 0x200;

/// Width of the display in pixels.
pub const SCREEN_WIDTH: usize = 64;

/// Height of the display in pixels.
pub const SCREEN_HEIGHT: usize = 32;

/// Number of pixels of the display.
pub const SCREEN_SIZE: usize = 2048;

/// Slots of the call stack. Slot 0 is never written, since a call moves the stack
/// pointer before it stores, so 16 nested calls fit.
pub const STACK_SIZE: usize = 17;

/// Number of general registers, and of keys.
pub const REGISTER_COUNT: usize = 16;

/// The glyphs of the hexadecimal digits 0 to F, five rows each.
pub const FONT: [u8; 80] = [
    0xF0, 0x90, 0x90, 0x90, 0xF0, // 0
    0x20, 0x60, 0x20, 0x20, 0x70, // 1
    0xF0, 0x10, 0xF0, 0x80, 0xF0, // 2
    0xF0, 0x10, 0xF0, 0x10, 0xF0, // 3
    0x90, 0x90, 0xF0, 0x10, 0x10, // 4
    0xF0, 0x80, 0xF0, 0x10, 0xF0, // 5
    0xF0, 0x80, 0xF0, 0x90, 0xF0, // 6
    0xF0, 0x10, 0x20, 0x40, 0x40, // 7
    0xF0, 0x90, 0xF0, 0x90, 0xF0, // 8
    0xF0, 0x90, 0xF0, 0x10, 0xF0, // 9
    0xF0, 0x90, 0xF0, 0x90, 0x90, // A
    0xE0, 0x90, 0xE0, 0x90, 0xE0, // B
    0xF0, 0x80, 0x80, 0x80, 0xF0, // C
    0xE0, 0x90, 0x90, 0x90, 0xE0, // D
    0xF0, 0x80, 0xF0, 0x80, 0xF0, // E
    0xF0, 0x80, 0xF0, 0x80, 0x80, // F
];

/// A fatal condition that ends a run.
#[derive(Clone, Copy, Debug, PartialEq, Eq, Structural)]
pub enum Fault {
    /// A call found 16 calls already outstanding.
    StackOverflow,
    /// A return found the stack empty.
    StackUnderflow,
    /// An instruction reached past the end of memory.
    AddressOutOfRange,
    /// A key instruction named a key above 0xF.
    KeyOutOfRange,
}

/// The abstract state of the machine.
pub struct Machine {
    /// The 4096 bytes of memory.
    pub memory: Seq<u8>,
    /// Registers V0 to VF; VF doubles as the flag register.
    pub v: Seq<u8>,
    /// Delay timer.
    pub dt: u8,
    /// Sound timer.
    pub st: u8,
    /// Program counter.
    pub pc: u16,
    /// Return addresses; slot 0 is never written, as a call moves the pointer first.
    pub stack: Seq<u16>,
    /// Stack pointer: the slot of the latest return address, 0 when the stack is empty.
    pub sp: u8,
    /// Index register I.
    pub i: u16,
    /// Display pixels, row by row, 0 or 1 each.
    pub gfx: Seq<u8>,
    /// Key states, true while pressed.
    pub keys: Seq<bool>,
    /// How many instructions were ignored as unrecognized.
    pub ignored: u64,
}

impl Machine {
    /// Sizes of every component are fixed; the stack pointer names a slot of the stack.
    pub open spec fn wf(self) -> bool {
        &&& self.memory.len() == MEMORY_SIZE
        &&& self.v.len() == REGISTER_COUNT
        &&& self.stack.len() == STACK_SIZE
        &&& self.sp < STACK_SIZE
        &&& self.gfx.len() == SCREEN_SIZE
        &&& self.keys.len() == REGISTER_COUNT
    }
}

/// Register index in bits 8 to 11.
pub open spec fn op_x(ins: u16) -> int {
    (ins as int / 256) % 16
}

/// Register index in bits 4 to 7.
pub open spec fn op_y(ins: u16) -> int {
    (ins as int / 16) % 16
}

/// Low nibble.
pub open spec fn op_n(ins: u16) -> int {
    ins as int % 16
}

/// Low byte.
pub open spec fn op_kk(ins: u16) -> u8 {
    (ins as int % 256) as u8
}

/// Low twelve bits.
pub open spec fn op_nnn(ins: u16) -> u16 {
    (ins as int % 4096) as u16
}

/// Top nibble, the opcode family.
pub open spec fn op_family(ins: u16) -> int {
    ins as int / 4096
}

/// The instruction word stored big-endian at `pc`.
pub open spec fn word_at(memory: Seq<u8>, pc: int) -> u16 {
    (memory[pc] as int * 256 + memory[pc + 1] as int) as u16
}

/// The machine with the program counter moved past one more instruction when `c` holds.
pub open spec fn skip_if(m: Machine, c: bool) -> Machine {
    if c {
        Machine { pc: (m.pc + 2) as u16, ..m }
    } else {
        m
    }
}

/// The blank display.
pub open spec fn blank_screen() -> Seq<u8> {
    Seq::new(SCREEN_SIZE as nat, |p: int| 0u8)
}

/// Bit `j` (0 is the leftmost) of one sprite row.
pub open spec fn sprite_bit(row: u8, j: int) -> u8 {
    (row >> ((7 - j) as u8)) & 1u8
}

/// Display index of the pixel at sprite column `j` and row `r`, wrapped to the screen.
pub open spec fn pixel_index(vx: int, vy: int, r: int, j: int) -> int {
    (vx + j) % 64 + ((vy + r) % 32) * 64
}

/// The display and the collision flag after XOR-ing in the first `k` pixels of a sprite,
/// pixels taken row by row, each row from its leftmost bit.
pub open spec fn draw_prefix(gfx: Seq<u8>, rows: Seq<u8>, vx: int, vy: int, k: nat) -> (Seq<u8>, bool)
    decreases k,
{
    if k == 0 {
        (gfx, false)
    } else {
        let (g, c) = draw_prefix(gfx, rows, vx, vy, (k - 1) as nat);
        let r = (k - 1) / 8;
        let j = (k - 1) % 8;
        let bit = sprite_bit(rows[r], j);
        let idx = pixel_index(vx, vy, r, j);
        (g.update(idx, g[idx] ^ bit), c || (bit == 1 && g[idx] == 1))
    }
}

/// Key `k` is pressed and no key below it is.
pub open spec fn is_lowest_pressed(keys: Seq<bool>, k: int) -> bool {
    &&& 0 <= k < REGISTER_COUNT
    &&& keys[k]
    &&& forall|j: int| 0 <= j < k ==> !keys[j]
}

/// Some key is pressed.
pub open spec fn any_pressed(keys: Seq<bool>) -> bool {
    exists|k: int| 0 <= k < REGISTER_COUNT && keys[k]
}

/// The lowest pressed key, where one is pressed.
pub open spec fn lowest_pressed(keys: Seq<bool>) -> int {
    choose|k: int| is_lowest_pressed(keys, k)
}

/// The machine with one more instruction counted as ignored; the count stops at its
/// largest value.
pub open spec fn ignore(m: Machine) -> Machine {
    Machine { ignored: if m.ignored < u64::MAX { (m.ignored + 1) as u64 } else { m.ignored }, ..m }
}

/// The low nibble names a register arithmetic operation of family 8.
pub open spec fn is_alu_op(n: int) -> bool {
    0 <= n <= 7 || n == 14
}

/// Effect of a family 8 instruction (register arithmetic) on the registers.
pub open spec fn alu(v: Seq<u8>, ins: u16) -> Seq<u8> {
    let x = op_x(ins);
    let y = op_y(ins);
    let a = v[x];
    let b = v[y];
    let n = op_n(ins);
    if n == 0 {
        v.update(x, b)
    } else if n == 1 {
        v.update(x, a | b)
    } else if n == 2 {
        v.update(x, a & b)
    } else if n == 3 {
        v.update(x, a ^ b)
    } else if n == 4 {
        v.update(15, if a as int + b as int > 255 { 1u8 } else { 0u8 }).update(
            x,
            ((a as int + b as int) % 256) as u8,
        )
    } else if n == 5 {
        v.update(15, if a >= b { 1u8 } else { 0u8 }).update(x, ((a as int - b as int + 256) % 256) as u8)
    } else if n == 6 {
        let w = v.update(15, a % 2);
        w.update(x, w[x] / 2)
    } else if n == 7 {
        v.update(15, if b >= a { 1u8 } else { 0u8 }).update(x, ((b as int - a as int + 256) % 256) as u8)
    } else if n == 14 {
        let w = v.update(15, a / 128);
        w.update(x, ((w[x] as int * 2) % 256) as u8)
    } else {
        v
    }
}

/// Effect of one decoded instruction `ins` on `m`, whose program counter has already
/// moved past it; `rnd` is the random byte that Cxkk draws.
pub open spec fn execute_spec(m: Machine, ins: u16, rnd: u8) -> Result<Machine, Fault> {
    let f = op_family(ins);
    let x = op_x(ins);
    let y = op_y(ins);
    let kk = op_kk(ins);
    let nnn = op_nnn(ins);
    let vx = m.v[x];
    if f == 0 {
        if ins == 0x00E0 {
            Ok(Machine { gfx: blank_screen(), ..m })
        } else if ins == 0x00EE {
            if m.sp == 0 {
                Err(Fault::StackUnderflow)
            } else {
                Ok(Machine { pc: m.stack[m.sp as int], sp: (m.sp - 1) as u8, ..m })
            }
        } else {
            Ok(ignore(m))
        }
    } else if f == 1 {
        Ok(Machine { pc: nnn, ..m })
    } else if f == 2 {
        if m.sp + 1 >= STACK_SIZE {
            Err(Fault::StackOverflow)
        } else {
            Ok(
                Machine {
                    sp: (m.sp + 1) as u8,
                    stack: m.stack.update(m.sp + 1, m.pc),
                    pc: nnn,
                    ..m
                },
            )
        }
    } else if f == 3 {
        Ok(skip_if(m, vx == kk))
    } else if f == 4 {
        Ok(skip_if(m, vx != kk))
    } else if f == 5 {
        Ok(if op_n(ins) != 0 { ignore(m) } else { skip_if(m, vx == m.v[y]) })
    } else if f == 6 {
        Ok(Machine { v: m.v.update(x, kk), ..m })
    } else if f == 7 {
        Ok(Machine { v: m.v.update(x, ((vx as int + kk as int) % 256) as u8), ..m })
    } else if f == 8 {
        if is_alu_op(op_n(ins)) {
            Ok(Machine { v: alu(m.v, ins), ..m })
        } else {
            Ok(ignore(m))
        }
    } else if f == 9 {
        Ok(if op_n(ins) != 0 { ignore(m) } else { skip_if(m, vx != m.v[y]) })
    } else if f == 10 {
        Ok(Machine { i: nnn, ..m })
    } else if f == 11 {
        Ok(Machine { pc: (nnn + m.v[0]) as u16, ..m })
    } else if f == 12 {
        Ok(Machine { v: m.v.update(x, rnd & kk), ..m })
    } else if f == 13 {
        let n = op_n(ins);
        if n > 0 && m.i + n > MEMORY_SIZE {
            Err(Fault::AddressOutOfRange)
        } else {
            let rows = m.memory.subrange(m.i as int, m.i + n);
            let (g, c) = draw_prefix(m.gfx, rows, vx as int, m.v[y] as int, (n * 8) as nat);
            Ok(Machine { gfx: g, v: m.v.update(15, if c { 1u8 } else { 0u8 }), ..m })
        }
    } else if f == 14 {
        if kk == 0x9E || kk == 0xA1 {
            if vx >= 16 {
                Err(Fault::KeyOutOfRange)
            } else {
                Ok(skip_if(m, m.keys[vx as int] == (kk == 0x9E)))
            }
        } else {
            Ok(ignore(m))
        }
    } else {
        if kk == 0x07 {
            Ok(Machine { v: m.v.update(x, m.dt), ..m })
        } else if kk == 0x0A {
            if any_pressed(m.keys) {
                Ok(Machine { v: m.v.update(x, lowest_pressed(m.keys) as u8), ..m })
            } else {
                Ok(Machine { pc: (m.pc - 2) as u16, ..m })
            }
        } else if kk == 0x15 {
            Ok(Machine { dt: vx, ..m })
        } else if kk == 0x18 {
            Ok(Machine { st: vx, ..m })
        } else if kk == 0x1E {
            Ok(Machine { i: ((m.i + vx) % 65536) as u16, ..m })
        } else if kk == 0x29 {
            Ok(Machine { i: (vx * 5) as u16, ..m })
        } else if kk == 0x33 {
            if m.i + 2 >= MEMORY_SIZE {
                Err(Fault::AddressOutOfRange)
            } else {
                Ok(
                    Machine {
                        memory: m.memory.update(m.i as int, vx / 100).update(
                            m.i + 1,
                            (vx / 10) % 10,
                        ).update(m.i + 2, vx % 10),
                        ..m
                    },
                )
            }
        } else if kk == 0x55 {
            if m.i + x >= MEMORY_SIZE {
                Err(Fault::AddressOutOfRange)
            } else {
                Ok(
                    Machine {
                        memory: Seq::new(
                            MEMORY_SIZE as nat,
                            |a: int|
                                if m.i <= a <= m.i + x {
                                    m.v[a - m.i]
                                } else {
                                    m.memory[a]
                                },
                        ),
                        i: ((m.i + x + 1) % 65536) as u16,
                        ..m
                    },
                )
            }
        } else if kk == 0x65 {
            if m.i + x >= MEMORY_SIZE {
                Err(Fault::AddressOutOfRange)
            } else {
                Ok(
                    Machine {
                        v: Seq::new(
                            REGISTER_COUNT as nat,
                            |r: int|
                                if r <= x {
                                    m.memory[m.i + r]
                                } else {
                                    m.v[r]
                                },
                        ),
                        i: ((m.i + x + 1) % 65536) as u16,
                        ..m
                    },
                )
            }
        } else {
            Ok(ignore(m))
        }
    }
}

/// One fetch-decode-execute cycle from `m`, with `rnd` as the random byte.
pub open spec fn cycle_spec(m: Machine, rnd: u8) -> Result<Machine, Fault> {
    if m.pc + 1 >= MEMORY_SIZE {
        Err(Fault::AddressOutOfRange)
    } else {
        execute_spec(Machine { pc: (m.pc + 2) as u16, ..m }, word_at(m.memory, m.pc as int), rnd)
    }
}

/// `after` and `res` are what one cycle from `before` with random byte `rnd` gives:
/// the new machine on success, the fault and an untouched machine on failure.
pub open spec fn cycle_outcome(before: Machine, rnd: u8, after: Machine, res: Result<(), Fault>) -> bool {
    match res {
        Ok(_) => cycle_spec(before, rnd) == Ok::<Machine, Fault>(after),
        Err(f) => cycle_spec(before, rnd) == Err::<Machine, Fault>(f) && after == before,
    }
}

/// One timer tick: each countdown falls by one, and stops at zero.
pub open spec fn tick_spec(m: Machine) -> Machine {
    Machine {
        dt: if m.dt > 0 { (m.dt - 1) as u8 } else { 0u8 },
        st: if m.st > 0 { (m.st - 1) as u8 } else { 0u8 },
        ..m
    }
}

/// Memory with the font glyphs written over addresses 0 to 79.
pub open spec fn with_font(memory: Seq<u8>) -> Seq<u8> {
    Seq::new(memory.len(), |a: int| if a < 80 { FONT@[a] } else { memory[a] })
}

/// Memory with `rom` written from the program start on.
pub open spec fn with_rom(memory: Seq<u8>, rom: Seq<u8>) -> Seq<u8> {
    Seq::new(
        memory.len(),
        |a: int|
            if PROGRAM_START <= a < PROGRAM_START + rom.len() {
                rom[a - PROGRAM_START]
            } else {
                memory[a]
            },
    )
}

/// A freshly built machine: all zero but the font, the program counter at the program
/// start, no key pressed.
pub open spec fn initial_machine() -> Machine {
    Machine {
        memory: with_font(Seq::new(MEMORY_SIZE as nat, |a: int| 0u8)),
        v: Seq::new(REGISTER_COUNT as nat, |r: int| 0u8),
        dt: 0,
        st: 0,
        pc: PROGRAM_START as u16,
        stack: Seq::new(STACK_SIZE as nat, |s: int| 0u16),
        sp: 0,
        i: 0,
        gfx: blank_screen(),
        keys: Seq::new(REGISTER_COUNT as nat, |k: int| false),
        ignored: 0,
    }
}

/// The state of the machine: memory, registers, timers, stack and display.
pub struct Chip8 {
    memory: Vec<u8>,
    vx: Vec<u8>,
    dt: u8,
    st: u8,
    pc: u16,
    stack: Vec<u16>,
    sp: u8,
    i: u16,
    gfx: Vec<u8>,
    keyboard: Vec<bool>,
    ignored: u64,
}

impl View for Chip8 {
    type V = Machine;

    closed spec fn view(&self) -> Machine {
        Machine {
            memory: self.memory@,
            v: self.vx@,
            dt: self.dt,
            st: self.st,
            pc: self.pc,
            stack: self.stack@,
            sp: self.sp,
            i: self.i,
            gfx: self.gfx@,
            keys: self.keyboard@,
            ignored: self.ignored,
        }
    }
}

/// Relies on rand::random::<u8>: a byte from the thread-local generator, about which
/// nothing is promised.
#[verifier::external_body]
fn random_byte() -> (r: u8) {
    rand::random::<u8>()
}

/// A vector of `n` zeros.
fn zeroed<T: Copy>(n: usize, zero: T) -> (r: Vec<T>)
    ensures
        r@ == Seq::new(n as nat, |p: int| zero),
{
    let mut r: Vec<T> = Vec::new();
    let mut k: usize = 0;
    while k < n
        invariant
            k <= n,
            r@ == Seq::new(k as nat, |p: int| zero),
        decreases n - k,
    {
        r.push(zero);
        k = k + 1;
        assert(r@ =~= Seq::new(k as nat, |p: int| zero));
    }
    r
}

impl Chip8 {
    /// The sizes of every component are the fixed ones.
    pub open spec fn wf(&self) -> bool {
        self@.wf()
    }

    /// Builds a machine with everything zeroed, the program counter at the program start,
    /// no key pressed, and the font loaded.
    pub fn new() -> (r: Chip8)
        ensures
            r.wf(),
            r@ == initial_machine(),
    {
        let mut chip8 = Chip8 {
            memory: zeroed(MEMORY_SIZE, 0u8),
            vx: zeroed(REGISTER_COUNT, 0u8),
            dt: 0,
            st: 0,
            pc: PROGRAM_START as u16,
            stack: zeroed(STACK_SIZE, 0u16),
            sp: 0,
            i: 0,
            gfx: zeroed(SCREEN_SIZE, 0u8),
            keyboard: zeroed(REGISTER_COUNT, false),
            ignored: 0,
        };
        chip8.load_fonts();
        chip8
    }

    /// Decrements the delay and sound timers, each only while above zero.
    pub fn timer_tick(&mut self)
        requires
            old(self).wf(),
        ensures
            final(self).wf(),
            final(self)@ == tick_spec(old(self)@),
    {
        if self.dt > 0 {
            self.dt = self.dt - 1;
        }
        if self.st > 0 {
            self.st = self.st - 1;
        }
    }

    /// True while the sound timer is above zero.
    pub fn is_sound_playing(&self) -> (r: bool)
        ensures
            r == (self@.st > 0),
    {
        self.st > 0
    }

    /// Writes the glyphs of the digits 0 to F over the first 80 bytes of memory.
    pub fn load_fonts(&mut self)
        requires
            old(self).wf(),
        ensures
            final(self).wf(),
            final(self)@ == (Machine { memory: with_font(old(self)@.memory), ..old(self)@ }),
    {
        let ghost m0 = self.memory@;
        let mut k: usize = 0;
        while k < 80
            invariant
                k <= 80,
                self.memory@.len() == MEMORY_SIZE,
                m0.len() == MEMORY_SIZE,
                self@ == (Machine { memory: self.memory@, ..old(self)@ }),
                old(self)@.memory == m0,
                forall|a: int| 0 <= a < k ==> self.memory@[a] == FONT@[a],
                forall|a: int| k <= a < MEMORY_SIZE ==> self.memory@[a] == m0[a],
            decreases 80 - k,
        {
            self.memory.set(k, FONT[k]);
            k = k + 1;
        }
        assert(self.memory@ =~= with_font(m0));
    }

    /// Copies `rom` into memory from the program start on; the rest of memory is kept.
    pub fn load_rom(&mut self, rom: Vec<u8>)
        requires
            old(self).wf(),
            rom.len() <= MEMORY_SIZE - PROGRAM_START,
        ensures
            final(self).wf(),
            final(self)@ == (Machine { memory: with_rom(old(self)@.memory, rom@), ..old(self)@ }),
    {
        let ghost m0 = self.memory@;
        let mut k: usize = 0;
        while k < rom.len()
            invariant
                k <= rom.len(),
                rom.len() <= MEMORY_SIZE - PROGRAM_START,
                self.memory@.len() == MEMORY_SIZE,
                m0.len() == MEMORY_SIZE,
                self@ == (Machine { memory: self.memory@, ..old(self)@ }),
                old(self)@.memory == m0,
                forall|a: int|
                    PROGRAM_START <= a < PROGRAM_START + k ==> self.memory@[a] == rom@[a
                        - PROGRAM_START],
                forall|a: int|
                    0 <= a < MEMORY_SIZE && !(PROGRAM_START <= a < PROGRAM_START + k)
                        ==> self.memory@[a] == m0[a],
            decreases rom.len() - k,
        {
            self.memory.set(PROGRAM_START + k, rom[k]);
            k = k + 1;
        }
        assert(self.memory@ =~= with_rom(m0, rom@));
    }

    /// The display, row by row, one byte per pixel.
    pub fn get_screen(&self) -> (r: &[u8])
        ensures
            r@ == self@.gfx,
    {
        self.gfx.as_slice()
    }

    fn clear_screen(&mut self)
        requires
            old(self).wf(),
        ensures
            final(self).wf(),
            final(self)@ == (Machine { gfx: blank_screen(), ..old(self)@ }),
    {
        self.gfx = zeroed(SCREEN_SIZE, 0u8);
    }

    fn ret(&mut self)
        requires
            old(self).wf(),
            old(self).sp != 0,
        ensures
            final(self).wf(),
            final(self)@ == (Machine {
                pc: old(self)@.stack[old(self)@.sp as int],
                sp: (old(self)@.sp - 1) as u8,
                ..old(self)@
            }),
    {
        self.pc = self.stack[self.sp as usize];
        self.sp = self.sp - 1;
    }

    /// Counts one more ignored instruction.
    fn note_ignored(&mut self)
        ensures
            final(self)@ == ignore(old(self)@),
    {
        if self.ignored < u64::MAX {
            self.ignored = self.ignored + 1;
        }
    }

    fn jump(&mut self, address: u16)
        ensures
            final(self)@ == (Machine { pc: address, ..old(self)@ }),
    {
        self.pc = address;
    }

    fn call(&mut self, address: u16)
        requires
            old(self).wf(),
            old(self).sp + 1 < STACK_SIZE,
        ensures
            final(self).wf(),
            final(self)@ == (
            Machine {
                sp: (old(self)@.sp + 1) as u8,
                stack: old(self)@.stack.update(old(self)@.sp + 1, old(self)@.pc),
                pc: address,
                ..old(self)@
            }),
    {
        self.sp = self.sp + 1;
        self.stack.set(self.sp as usize, self.pc);
        self.pc = address;
    }

    fn se(&mut self, byte1: u8, byte2: u8)
        requires
            old(self).pc + 2 <= u16::MAX,
        ensures
            final(self)@ == skip_if(old(self)@, byte1 == byte2),
    {
        if byte1 == byte2 {
            self.pc = self.pc + 2;
        }
    }

    fn sne(&mut self, byte1: u8, byte2: u8)
        requires
            old(self).pc + 2 <= u16::MAX,
        ensures
            final(self)@ == skip_if(old(self)@, byte1 != byte2),
    {
        if byte1 != byte2 {
            self.pc = self.pc + 2;
        }
    }

    /// Register arithmetic of family 8.
    fn arith(&mut self, ins: u16)
        requires
            old(self).wf(),
            op_family(ins) == 8,
        ensures
            final(self).wf(),
            final(self)@ == (Machine { v: alu(old(self)@.v, ins), ..old(self)@ }),
    {
        let ghost v0 = self.vx@;
        let x = ((ins / 256) % 16) as usize;
        let y = ((ins / 16) % 16) as usize;
        let a = self.vx[x];
        let b = self.vx[y];
        let n = ins % 16;
        assert(x == op_x(ins) && y == op_y(ins) && n == op_n(ins));
        if n == 0 {
            self.vx.set(x, b);
        } else if n == 1 {
            self.vx.set(x, a | b);
        } else if n == 2 {
            self.vx.set(x, a & b);
        } else if n == 3 {
            self.vx.set(x, a ^ b);
        } else if n == 4 {
            let sum = a as u16 + b as u16;
            self.vx.set(15, if sum > 255 { 1 } else { 0 });
            self.vx.set(x, (sum % 256) as u8);
        } else if n == 5 {
            self.vx.set(15, if a >= b { 1 } else { 0 });
            self.vx.set(x, ((a as u16 + 256 - b as u16) % 256) as u8);
        } else if n == 6 {
            self.vx.set(15, a % 2);
            let w = self.vx[x];
            self.vx.set(x, w / 2);
        } else if n == 7 {
            self.vx.set(15, if b >= a { 1 } else { 0 });
            self.vx.set(x, ((b as u16 + 256 - a as u16) % 256) as u8);
        } else if n == 14 {
            self.vx.set(15, a / 128);
            let w = self.vx[x];
            self.vx.set(x, ((w as u16 * 2) % 256) as u8);
        }
        assert(self.vx@ =~= alu(v0, ins));
    }

    /// XORs an `n`-row sprite read from memory at I into the display at (`vx`, `vy`);
    /// returns whether any lit pixel was turned off.
    fn draw(&mut self, vx: u8, vy: u8, n: usize) -> (collided: bool)
        requires
            old(self).wf(),
            n < 16,
            n == 0 || old(self).i + n <= MEMORY_SIZE,
        ensures
            final(self).wf(),
            ({
                let rows = old(self)@.memory.subrange(old(self)@.i as int, old(self)@.i + n);
                let (g, c) = draw_prefix(old(self)@.gfx, rows, vx as int, vy as int, (n * 8) as nat);
                final(self)@ == (Machine { gfx: g, ..old(self)@ }) && collided == c
            }),
    {
        let ghost rows = self@.memory.subrange(self@.i as int, self@.i + n);
        let ghost g0 = self.gfx@;
        let base = self.i as usize;
        let total = n * 8;
        let mut k: usize = 0;
        let mut collided = false;
        while k < total
            invariant
                k <= total,
                total == n * 8,
                n < 16,
                base == old(self)@.i,
                n == 0 || base + n <= MEMORY_SIZE,
                old(self).wf(),
                self.gfx@.len() == SCREEN_SIZE,
                g0 == old(self)@.gfx,
                rows == old(self)@.memory.subrange(base as int, base + n),
                self@ == (Machine { gfx: self.gfx@, ..old(self)@ }),
                draw_prefix(g0, rows, vx as int, vy as int, k as nat) == (self.gfx@, collided),
            decreases total - k,
        {
            let r = k / 8;
            let j = k % 8;
            let row = self.memory[base + r];
            assert(row == rows[r as int]);
            let bit = (row >> ((7 - j) as u8)) & 1u8;
            let idx = (vx as usize + j) % 64 + ((vy as usize + r) % 32) * 64;
            let cur = self.gfx[idx];
            if bit == 1 && cur == 1 {
                collided = true;
            }
            self.gfx.set(idx, cur ^ bit);
            k = k + 1;
        }
        collided
    }

    /// The lowest-indexed pressed key, if any is pressed.
    fn lowest_key(&self) -> (r: Option<u8>)
        requires
            self.wf(),
        ensures
            match r {
                Some(k) => is_lowest_pressed(self@.keys, k as int),
                None => !any_pressed(self@.keys),
            },
    {
        let mut k: usize = 0;
        while k < REGISTER_COUNT
            invariant
                k <= REGISTER_COUNT,
                self.wf(),
                forall|j: int| 0 <= j < k ==> !self@.keys[j],
            decreases REGISTER_COUNT - k,
        {
            if self.keyboard[k] {
                return Some(k as u8);
            }
            k = k + 1;
        }
        None
    }

    /// Copies V0 to Vx into memory from I on; then I moves past them.
    fn store_registers(&mut self, x: usize)
        requires
            old(self).wf(),
            x < REGISTER_COUNT,
            old(self).i + x < MEMORY_SIZE,
        ensures
            final(self).wf(),
            ({
                let m = old(self)@;
                final(self)@ == (Machine {
                    memory: Seq::new(
                        MEMORY_SIZE as nat,
                        |a: int|
                            if m.i <= a <= m.i + x {
                                m.v[a - m.i]
                            } else {
                                m.memory[a]
                            },
                    ),
                    i: ((m.i + x + 1) % 65536) as u16,
                    ..m
                })
            }),
    {
        let ghost m = self@;
        let base = self.i as usize;
        let mut k: usize = 0;
        while k <= x
            invariant
                k <= x + 1,
                x < REGISTER_COUNT,
                base == m.i,
                base + x < MEMORY_SIZE,
                m == old(self)@,
                m.wf(),
                self.memory@.len() == MEMORY_SIZE,
                self@ == (Machine { memory: self.memory@, ..m }),
                forall|a: int| 0 <= a < MEMORY_SIZE ==> #[trigger] self.memory@[a] == if base <= a < base + k {
                    m.v[a - base]
                } else {
                    m.memory[a]
                },
            decreases x + 1 - k,
        {
            let val = self.vx[k];
            self.memory.set(base + k, val);
            k = k + 1;
        }
        assert(self.memory@ =~= Seq::new(
            MEMORY_SIZE as nat,
            |a: int|
                if m.i <= a <= m.i + x {
                    m.v[a - m.i]
                } else {
                    m.memory[a]
                },
        ));
        self.i = self.i.wrapping_add((x + 1) as u16);
    }

    /// Fills V0 to Vx from memory at I on; then I moves past them.
    fn load_registers(&mut self, x: usize)
        requires
            old(self).wf(),
            x < REGISTER_COUNT,
            old(self).i + x < MEMORY_SIZE,
        ensures
            final(self).wf(),
            ({
                let m = old(self)@;
                final(self)@ == (Machine {
                    v: Seq::new(
                        REGISTER_COUNT as nat,
                        |r: int|
                            if r <= x {
                                m.memory[m.i + r]
                            } else {
                                m.v[r]
                            },
                    ),
                    i: ((m.i + x + 1) % 65536) as u16,
                    ..m
                })
            }),
    {
        let ghost m = self@;
        let base = self.i as usize;
        let mut k: usize = 0;
        while k <= x
            invariant
                k <= x + 1,
                x < REGISTER_COUNT,
                base == m.i,
                base + x < MEMORY_SIZE,
                m == old(self)@,
                m.wf(),
                self.vx@.len() == REGISTER_COUNT,
                self@ == (Machine { v: self.vx@, ..m }),
                forall|r: int| 0 <= r < REGISTER_COUNT ==> #[trigger] self.vx@[r] == if r < k {
                    m.memory[base + r]
                } else {
                    m.v[r]
                },
            decreases x + 1 - k,
        {
            let val = self.memory[base + k];
            self.vx.set(k, val);
            k = k + 1;
        }
        assert(self.vx@ =~= Seq::new(
            REGISTER_COUNT as nat,
            |r: int|
                if r <= x {
                    m.memory[m.i + r]
                } else {
                    m.v[r]
                },
        ));
        self.i = self.i.wrapping_add((x + 1) as u16);
    }

    /// Executes the decoded instruction `ins`; the program counter has already moved past
    /// it. `random` is the byte that Cxkk draws. A fault leaves the machine as it was.
    fn execute(&mut self, ins: u16, random: u8) -> (res: Result<(), Fault>)
        requires
            old(self).wf(),
            2 <= old(self).pc <= MEMORY_SIZE + 1,
        ensures
            final(self).wf(),
            match res {
                Ok(_) => execute_spec(old(self)@, ins, random) == Ok::<Machine, Fault>(final(self)@),
                Err(f) => execute_spec(old(self)@, ins, random) == Err::<Machine, Fault>(f)
                    && final(self)@ == old(self)@,
            },
    {
        let ghost m = self@;
        let f = ins / 4096;
        let x = ((ins / 256) % 16) as usize;
        let y = ((ins / 16) % 16) as usize;
        let n = (ins % 16) as usize;
        let kk = (ins % 256) as u8;
        let nnn = ins % 4096;
        let vx = self.vx[x];
        if f == 0 {
            if ins == 0x00E0 {
                self.clear_screen();
                Ok(())
            } else if ins == 0x00EE {
                if self.sp == 0 {
                    return Err(Fault::StackUnderflow);
                }
                self.ret();
                Ok(())
            } else {
                self.note_ignored();
                Ok(())
            }
        } else if f == 1 {
            self.jump(nnn);
            Ok(())
        } else if f == 2 {
            if self.sp as usize + 1 >= STACK_SIZE {
                return Err(Fault::StackOverflow);
            }
            self.call(nnn);
            Ok(())
        } else if f == 3 {
            self.se(vx, kk);
            Ok(())
        } else if f == 4 {
            self.sne(vx, kk);
            Ok(())
        } else if f == 5 {
            if n == 0 {
                let vy = self.vx[y];
                self.se(vx, vy);
            } else {
                self.note_ignored();
            }
            Ok(())
        } else if f == 6 {
            self.vx.set(x, kk);
            Ok(())
        } else if f == 7 {
            self.vx.set(x, ((vx as u16 + kk as u16) % 256) as u8);
            Ok(())
        } else if f == 8 {
            if n <= 7 || n == 14 {
                self.arith(ins);
            } else {
                self.note_ignored();
            }
            Ok(())
        } else if f == 9 {
            if n == 0 {
                let vy = self.vx[y];
                self.sne(vx, vy);
            } else {
                self.note_ignored();
            }
            Ok(())
        } else if f == 10 {
            self.i = nnn;
            Ok(())
        } else if f == 11 {
            let v0 = self.vx[0];
            self.jump(nnn + v0 as u16);
            Ok(())
        } else if f == 12 {
            self.vx.set(x, random & kk);
            Ok(())
        } else if f == 13 {
            if n > 0 && self.i as usize + n > MEMORY_SIZE {
                return Err(Fault::AddressOutOfRange);
            }
            let vy = self.vx[y];
            let collided = self.draw(vx, vy, n);
            self.vx.set(15, if collided { 1 } else { 0 });
            Ok(())
        } else if f == 14 {
            if kk == 0x9E || kk == 0xA1 {
                if vx >= 16 {
                    return Err(Fault::KeyOutOfRange);
                }
                let pressed = self.keyboard[vx as usize];
                if pressed == (kk == 0x9E) {
                    self.pc = self.pc + 2;
                }
            } else {
                self.note_ignored();
            }
            Ok(())
        } else {
            if kk == 0x07 {
                let dt = self.dt;
                self.vx.set(x, dt);
            } else if kk == 0x0A {
                match self.lowest_key() {
                    Some(k) => {
                        proof {
                            let keys = m.keys;
                            assert(any_pressed(keys));
                            assert(is_lowest_pressed(keys, k as int));
                            let c = lowest_pressed(keys);
                            assert(is_lowest_pressed(keys, c));
                            if c < k as int {
                                assert(keys[c]);
                            }
                            if c > k as int {
                                assert(keys[k as int]);
                            }
                            assert(c == k as int);
                        }
                        self.vx.set(x, k);
                    },
                    None => {
                        self.pc = self.pc - 2;
                    },
                }
            } else if kk == 0x15 {
                self.dt = vx;
            } else if kk == 0x18 {
                self.st = vx;
            } else if kk == 0x1E {
                self.i = self.i.wrapping_add(vx as u16);
            } else if kk == 0x29 {
                self.i = vx as u16 * 5;
            } else if kk == 0x33 {
                if self.i as usize + 2 >= MEMORY_SIZE {
                    return Err(Fault::AddressOutOfRange);
                }
                let base = self.i as usize;
                self.memory.set(base, vx / 100);
                self.memory.set(base + 1, (vx / 10) % 10);
                self.memory.set(base + 2, vx % 10);
            } else if kk == 0x55 {
                if self.i as usize + x >= MEMORY_SIZE {
                    return Err(Fault::AddressOutOfRange);
                }
                self.store_registers(x);
            } else if kk == 0x65 {
                if self.i as usize + x >= MEMORY_SIZE {
                    return Err(Fault::AddressOutOfRange);
                }
                self.load_registers(x);
            } else {
                self.note_ignored();
            }
            Ok(())
        }
    }

    /// Runs one fetch-decode-execute cycle with `random` as the byte that Cxkk draws.
    /// A fault leaves the machine as it was before the cycle.
    pub fn step(&mut self, random: u8) -> (res: Result<(), Fault>)
        requires
            old(self).wf(),
        ensures
            final(self).wf(),
            cycle_outcome(old(self)@, random, final(self)@, res),
    {
        if self.pc as usize + 1 >= MEMORY_SIZE {
            return Err(Fault::AddressOutOfRange);
        }
        let hi = self.memory[self.pc as usize];
        let lo = self.memory[self.pc as usize + 1];
        let ins = hi as u16 * 256 + lo as u16;
        let saved = self.pc;
        self.pc = self.pc + 2;
        let res = self.execute(ins, random);
        if res.is_err() {
            self.pc = saved;
        }
        res
    }

    /// Runs one fetch-decode-execute cycle; Cxkk draws a fresh random byte.
    /// A fault leaves the machine as it was before the cycle.
    pub fn next_instruction(&mut self) -> (res: Result<(), Fault>)
        requires
            old(self).wf(),
        ensures
            final(self).wf(),
            exists|b: u8| cycle_outcome(old(self)@, b, final(self)@, res),
    {
        let b = random_byte();
        self.step(b)
    }

    /// Register Vx.
    pub fn register(&self, x: usize) -> (r: u8)
        requires
            self.wf(),
            x < REGISTER_COUNT,
        ensures
            r == self@.v[x as int],
    {
        self.vx[x]
    }

    /// The byte at `address`.
    pub fn memory_at(&self, address: usize) -> (r: u8)
        requires
            self.wf(),
            address < MEMORY_SIZE,
        ensures
            r == self@.memory[address as int],
    {
        self.memory[address]
    }

    /// The program counter.
    pub fn program_counter(&self) -> (r: u16)
        ensures
            r == self@.pc,
    {
        self.pc
    }

    /// The index register I.
    pub fn index(&self) -> (r: u16)
        ensures
            r == self@.i,
    {
        self.i
    }

    /// The stack pointer.
    pub fn stack_pointer(&self) -> (r: u8)
        ensures
            r == self@.sp,
    {
        self.sp
    }

    /// The delay timer.
    pub fn delay_timer(&self) -> (r: u8)
        ensures
            r == self@.dt,
    {
        self.dt
    }

    /// Presses (`pressed` true) or releases key `key`.
    pub fn set_key(&mut self, key: usize, pressed: bool)
        requires
            old(self).wf(),
            key < REGISTER_COUNT,
        ensures
            final(self).wf(),
            final(self)@ == (Machine { keys: old(self)@.keys.update(key as int, pressed), ..old(self)@ }),
    {
        self.keyboard.set(key, pressed);
    }

    /// Whether key `key` is pressed.
    pub fn key_pressed(&self, key: usize) -> (r: bool)
        requires
            self.wf(),
            key < REGISTER_COUNT,
        ensures
            r == self@.keys[key as int],
    {
        self.keyboard[key]
    }

    /// How many instructions were ignored as unrecognized.
    pub fn ignored_count(&self) -> (r: u64)
        ensures
            r == self@.ignored,
    {
        self.ignored
    }

    /// The sound timer.
    pub fn sound_timer(&self) -> (r: u8)
        ensures
            r == self@.st,
    {
        self.st
    }
}

} // verus!
