use vstd::prelude::*;
use crate::chip8::{
    Fault, Machine, MEMORY_SIZE, PROGRAM_START, REGISTER_COUNT, SCREEN_SIZE, STACK_SIZE,
    cycle_spec, initial_machine, is_lowest_pressed, any_pressed, lowest_pressed, op_family,
    op_kk, op_n, op_x, op_y, tick_spec, with_rom, word_at, draw_prefix, pixel_index, sprite_bit,
};

verus! {

/// The instruction word that the next cycle of `m` fetches.
pub open spec fn fetched(m: Machine) -> u16 {
    word_at(m.memory, m.pc as int)
}

/// The instruction is one of those that may move the program counter beyond the fetch:
/// return, jump, call, the skips, the jump with offset, and the key wait.
pub open spec fn moves_pc(ins: u16) -> bool {
    let f = op_family(ins);
    ||| ins == 0x00EE
    ||| f == 1 || f == 2 || f == 3 || f == 4 || f == 5 || f == 9 || f == 11 || f == 14
    ||| (f == 15 && op_kk(ins) == 0x0A)
}

/// A cycle that succeeds advances the program counter by exactly 2 unless the instruction
/// is one that moves it; a skip advances it by 2 or by 4.
pub proof fn lemma_pc_advances(m: Machine, rnd: u8)
    requires
        m.wf(),
        cycle_spec(m, rnd) is Ok,
    ensures
        !moves_pc(fetched(m)) ==> cycle_spec(m, rnd)->Ok_0.pc == m.pc + 2,
        ({
            let f = op_family(fetched(m));
            f == 3 || f == 4 || f == 5 || f == 9 || f == 14
        }) ==> (cycle_spec(m, rnd)->Ok_0.pc == m.pc + 2 || cycle_spec(m, rnd)->Ok_0.pc == m.pc
            + 4),
{
}

/// Loading a program into a fresh machine places it unchanged at the program start and
/// leaves the rest of program memory zero.
pub proof fn lemma_load_rom_fresh(rom: Seq<u8>)
    requires
        rom.len() <= MEMORY_SIZE - PROGRAM_START,
    ensures
        ({
            let mem = with_rom(initial_machine().memory, rom);
            &&& mem.len() == MEMORY_SIZE
            &&& mem.subrange(PROGRAM_START as int, PROGRAM_START + rom.len()) == rom
            &&& forall|a: int| PROGRAM_START + rom.len() <= a < MEMORY_SIZE ==> mem[a] == 0
        }),
{
    let mem = with_rom(initial_machine().memory, rom);
    assert(mem.subrange(PROGRAM_START as int, PROGRAM_START + rom.len()) =~= rom);
}

/// After 00E0 the display is blank, whatever it held before.
pub proof fn lemma_clear_blanks(m: Machine, rnd: u8)
    requires
        m.wf(),
        m.pc + 1 < MEMORY_SIZE,
        fetched(m) == 0x00E0,
    ensures
        cycle_spec(m, rnd) is Ok,
        cycle_spec(m, rnd)->Ok_0.gfx.len() == SCREEN_SIZE,
        forall|p: int| 0 <= p < SCREEN_SIZE ==> cycle_spec(m, rnd)->Ok_0.gfx[p] == 0,
{
}

/// A call succeeds and deepens the stack by one while fewer than 16 calls are
/// outstanding, so 16 nested calls succeed; the 17th is fatal.
pub proof fn lemma_call_depth(m: Machine, rnd: u8)
    requires
        m.wf(),
        m.pc + 1 < MEMORY_SIZE,
        op_family(fetched(m)) == 2,
    ensures
        m.sp < 16 ==> cycle_spec(m, rnd) is Ok && cycle_spec(m, rnd)->Ok_0.sp == m.sp + 1
            && cycle_spec(m, rnd)->Ok_0.stack[m.sp + 1] == m.pc + 2,
        m.sp == 16 ==> cycle_spec(m, rnd) == Err::<Machine, Fault>(
            Fault::StackOverflow,
        ),
{
}

/// A return after a call resumes right after the call, at the depth before it, whatever
/// ran in between as long as it left the stack pointer and the saved address alone.
pub proof fn lemma_call_then_return(m: Machine, later: Machine, rnd: u8)
    requires
        m.wf(),
        m.pc + 1 < MEMORY_SIZE,
        op_family(fetched(m)) == 2,
        m.sp < 16,
        later.wf(),
        later.pc + 1 < MEMORY_SIZE,
        fetched(later) == 0x00EE,
        later.sp == m.sp + 1,
        later.stack[later.sp as int] == cycle_spec(m, rnd)->Ok_0.stack[m.sp + 1],
    ensures
        cycle_spec(later, rnd) is Ok,
        cycle_spec(later, rnd)->Ok_0.pc == m.pc + 2,
        cycle_spec(later, rnd)->Ok_0.sp == m.sp,
{
}

/// A return on an empty stack is fatal.
pub proof fn lemma_return_on_empty_stack(m: Machine, rnd: u8)
    requires
        m.wf(),
        m.pc + 1 < MEMORY_SIZE,
        fetched(m) == 0x00EE,
        m.sp == 0,
    ensures
        cycle_spec(m, rnd) == Err::<Machine, Fault>(Fault::StackUnderflow),
{
}

/// Fx0A with no key pressed changes nothing, the program counter included, so the same
/// instruction runs again; with a key pressed, Vx takes the lowest pressed key and the
/// program counter moves on by 2.
pub proof fn lemma_key_wait(m: Machine, rnd: u8)
    requires
        m.wf(),
        m.pc + 1 < MEMORY_SIZE,
        op_family(fetched(m)) == 15,
        op_kk(fetched(m)) == 0x0A,
    ensures
        cycle_spec(m, rnd) is Ok,
        !any_pressed(m.keys) ==> cycle_spec(m, rnd)->Ok_0 == m,
        any_pressed(m.keys) ==> {
            let m2 = cycle_spec(m, rnd)->Ok_0;
            &&& m2.pc == m.pc + 2
            &&& is_lowest_pressed(m.keys, m2.v[op_x(fetched(m))] as int)
        },
{
    if any_pressed(m.keys) {
        let k = choose|k: int| 0 <= k < REGISTER_COUNT && m.keys[k];
        lemma_lowest_exists(m.keys, k);
    }
}

/// Where key `k` is pressed, a lowest pressed key exists.
proof fn lemma_lowest_exists(keys: Seq<bool>, k: int)
    requires
        0 <= k < REGISTER_COUNT,
        keys[k],
    ensures
        is_lowest_pressed(keys, lowest_pressed(keys)),
    decreases k,
{
    if forall|j: int| 0 <= j < k ==> !keys[j] {
        assert(is_lowest_pressed(keys, k));
    } else {
        let j = choose|j: int| 0 <= j < k && keys[j];
        lemma_lowest_exists(keys, j);
    }
}

/// Sprite position (`r`, `j`), row `r` and column `j`, is one of the first `k` drawn.
pub open spec fn drawn_before(k: int, r: int, j: int) -> bool {
    0 <= r && 0 <= j < 8 && r * 8 + j < k
}

/// Two sprite positions of a sprite of at most 16 rows never wrap onto the same pixel.
proof fn lemma_pixel_injective(vx: int, vy: int, r1: int, j1: int, r2: int, j2: int)
    requires
        0 <= vx,
        0 <= vy,
        0 <= r1 < 16,
        0 <= r2 < 16,
        0 <= j1 < 8,
        0 <= j2 < 8,
        pixel_index(vx, vy, r1, j1) == pixel_index(vx, vy, r2, j2),
    ensures
        r1 == r2 && j1 == j2,
{
    let x1 = (vx + j1) % 64;
    let x2 = (vx + j2) % 64;
    let y1 = (vy + r1) % 32;
    let y2 = (vy + r2) % 32;
    assert(x1 == x2 && y1 == y2) by (nonlinear_arith)
        requires
            0 <= x1 < 64,
            0 <= x2 < 64,
            0 <= y1 < 32,
            0 <= y2 < 32,
            x1 + y1 * 64 == x2 + y2 * 64,
    ;
}

/// What the first `k` pixels of a sprite do: each drawn bit is XOR-ed into the one pixel
/// it wraps to, every other pixel is kept, and the flag is raised exactly when some set
/// bit met a lit pixel.
proof fn lemma_draw_prefix(gfx: Seq<u8>, rows: Seq<u8>, vx: int, vy: int, k: nat)
    requires
        gfx.len() == SCREEN_SIZE,
        rows.len() < 16,
        k <= rows.len() * 8,
        0 <= vx,
        0 <= vy,
    ensures
        ({
            let (g, c) = draw_prefix(gfx, rows, vx, vy, k);
            &&& g.len() == SCREEN_SIZE
            &&& forall|r: int, j: int|
                drawn_before(k as int, r, j) ==> g[#[trigger] pixel_index(vx, vy, r, j)]
                    == gfx[pixel_index(vx, vy, r, j)] ^ sprite_bit(rows[r], j)
            &&& forall|p: int|
                0 <= p < SCREEN_SIZE && (forall|r: int, j: int|
                    drawn_before(k as int, r, j) ==> #[trigger] pixel_index(vx, vy, r, j) != p)
                    ==> g[p] == gfx[p]
            &&& c == exists|r: int, j: int|
                drawn_before(k as int, r, j) && sprite_bit(rows[r], j) == 1 && gfx[
                    #[trigger] pixel_index(vx, vy, r, j)] == 1
        }),
    decreases k,
{
    if k > 0 {
        lemma_draw_prefix(gfx, rows, vx, vy, (k - 1) as nat);
        let (g0, c0) = draw_prefix(gfx, rows, vx, vy, (k - 1) as nat);
        let r0 = (k - 1) / 8;
        let j0 = (k - 1) % 8;
        let idx0 = pixel_index(vx, vy, r0, j0);
        assert forall|r: int, j: int| drawn_before(k - 1, r, j) implies pixel_index(vx, vy, r, j)
            != idx0 by {
            if pixel_index(vx, vy, r, j) == idx0 {
                lemma_pixel_injective(vx, vy, r, j, r0, j0);
            }
        }
        assert(g0[idx0] == gfx[idx0]);
        let (g, c) = draw_prefix(gfx, rows, vx, vy, k);
        assert forall|r: int, j: int| drawn_before(k as int, r, j) implies g[pixel_index(
            vx,
            vy,
            r,
            j,
        )] == gfx[pixel_index(vx, vy, r, j)] ^ sprite_bit(rows[r], j) by {
            if r != r0 || j != j0 {
                assert(drawn_before(k - 1, r, j));
                if pixel_index(vx, vy, r, j) == idx0 {
                    lemma_pixel_injective(vx, vy, r, j, r0, j0);
                }
            }
        }
        assert forall|p: int|
            0 <= p < SCREEN_SIZE && (forall|r: int, j: int|
                drawn_before(k as int, r, j) ==> #[trigger] pixel_index(vx, vy, r, j) != p) implies g[p]
            == gfx[p] by {
            assert(drawn_before(k as int, r0, j0));
            assert forall|r: int, j: int| drawn_before(k - 1, r, j) implies #[trigger] pixel_index(
                vx,
                vy,
                r,
                j,
            ) != p by {
                assert(drawn_before(k as int, r, j));
            }
        }
        let hit = exists|r: int, j: int|
            drawn_before(k as int, r, j) && sprite_bit(rows[r], j) == 1 && gfx[
                #[trigger] pixel_index(vx, vy, r, j)] == 1;
        if c {
            if c0 {
                let (r, j) = choose|r: int, j: int|
                    drawn_before(k - 1, r, j) && sprite_bit(rows[r], j) == 1 && gfx[
                        #[trigger] pixel_index(vx, vy, r, j)] == 1;
                assert(drawn_before(k as int, r, j));
            } else {
                assert(drawn_before(k as int, r0, j0));
            }
            assert(hit);
        }
        if hit {
            let (r, j) = choose|r: int, j: int|
                drawn_before(k as int, r, j) && sprite_bit(rows[r], j) == 1 && gfx[
                    #[trigger] pixel_index(vx, vy, r, j)] == 1;
            if r != r0 || j != j0 {
                assert(drawn_before(k - 1, r, j));
            }
            assert(c);
        }
    }
}

/// A sprite draw XORs each of its bits into the one display pixel it wraps to, keeps
/// every other pixel, and reports a collision exactly when some set bit met a lit pixel.
pub proof fn lemma_draw_xor(gfx: Seq<u8>, rows: Seq<u8>, vx: u8, vy: u8)
    requires
        gfx.len() == SCREEN_SIZE,
        rows.len() < 16,
    ensures
        ({
            let (g, c) = draw_prefix(gfx, rows, vx as int, vy as int, (rows.len() * 8) as nat);
            &&& g.len() == SCREEN_SIZE
            &&& forall|r: int, j: int|
                0 <= r < rows.len() && 0 <= j < 8 ==> g[#[trigger] pixel_index(vx as int, vy as int, r, j)]
                    == gfx[pixel_index(vx as int, vy as int, r, j)] ^ sprite_bit(rows[r], j)
            &&& forall|p: int|
                0 <= p < SCREEN_SIZE && (forall|r: int, j: int|
                    0 <= r < rows.len() && 0 <= j < 8 ==> #[trigger] pixel_index(vx as int, vy as int, r, j) != p)
                    ==> g[p] == gfx[p]
            &&& c == exists|r: int, j: int|
                0 <= r < rows.len() && 0 <= j < 8 && sprite_bit(rows[r], j) == 1 && gfx[
                    #[trigger] pixel_index(vx as int, vy as int, r, j)] == 1
        }),
{
    let k = (rows.len() * 8) as nat;
    lemma_draw_prefix(gfx, rows, vx as int, vy as int, k);
    assert forall|r: int, j: int| drawn_before(k as int, r, j) <==> (0 <= r < rows.len() && 0 <= j < 8) by {}
}

/// One Dxyn cycle: each bit of the n sprite rows read from memory at I is XOR-ed into the
/// one display pixel it wraps to, every other pixel is kept, VF becomes 1 exactly when a
/// set bit met a lit pixel and 0 otherwise, and the program counter moves on by 2. A
/// zero-row sprite reads no memory, and draws nothing, wherever I points.
pub proof fn lemma_draw_cycle(m: Machine, rnd: u8)
    requires
        m.wf(),
        m.pc + 1 < MEMORY_SIZE,
        op_family(fetched(m)) == 13,
        op_n(fetched(m)) == 0 || m.i + op_n(fetched(m)) <= MEMORY_SIZE,
    ensures
        cycle_spec(m, rnd) is Ok,
        ({
            let m2 = cycle_spec(m, rnd)->Ok_0;
            let ins = fetched(m);
            let n = op_n(ins);
            let vx = m.v[op_x(ins)] as int;
            let vy = m.v[op_y(ins)] as int;
            &&& m2.pc == m.pc + 2
            &&& m2.memory == m.memory && m2.i == m.i && m2.sp == m.sp && m2.stack == m.stack
            &&& m2.gfx.len() == SCREEN_SIZE
            &&& forall|r: int, j: int|
                0 <= r < n && 0 <= j < 8 ==> m2.gfx[#[trigger] pixel_index(vx, vy, r, j)]
                    == m.gfx[pixel_index(vx, vy, r, j)] ^ sprite_bit(m.memory[m.i + r], j)
            &&& forall|p: int|
                0 <= p < SCREEN_SIZE && (forall|r: int, j: int|
                    0 <= r < n && 0 <= j < 8 ==> #[trigger] pixel_index(vx, vy, r, j) != p)
                    ==> m2.gfx[p] == m.gfx[p]
            &&& (m2.v[15] == 1) == exists|r: int, j: int|
                0 <= r < n && 0 <= j < 8 && sprite_bit(m.memory[m.i + r], j) == 1 && m.gfx[
                    #[trigger] pixel_index(vx, vy, r, j)] == 1
            &&& (m2.v[15] == 0 || m2.v[15] == 1)
            &&& forall|r: int| 0 <= r < 15 ==> m2.v[r] == m.v[r]
        }),
{
    let ins = fetched(m);
    let n = op_n(ins);
    let rows = m.memory.subrange(m.i as int, m.i + n);
    let vx = m.v[op_x(ins)];
    let vy = m.v[op_y(ins)];
    if n == 0 {
        assert(draw_prefix(m.gfx, rows, vx as int, vy as int, 0) == (m.gfx, false));
    } else {
        lemma_draw_xor(m.gfx, rows, vx, vy);
        assert forall|r: int| 0 <= r < n implies rows[r] == m.memory[m.i + r] by {}
    }
}

/// The machine after `k` timer ticks.
pub open spec fn ticks(m: Machine, k: nat) -> Machine
    decreases k,
{
    if k == 0 {
        m
    } else {
        tick_spec(ticks(m, (k - 1) as nat))
    }
}

/// Repeated ticks count each timer down to zero and hold it there.
pub proof fn lemma_timers_count_down(m: Machine, k: nat)
    ensures
        ticks(m, k).dt == if m.dt >= k { m.dt - k } else { 0 },
        ticks(m, k).st == if m.st >= k { m.st - k } else { 0 },
    decreases k,
{
    if k > 0 {
        lemma_timers_count_down(m, (k - 1) as nat);
    }
}

} // verus!
