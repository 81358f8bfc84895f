//! Properties that relate several instructions or several cycles, stated
//! over the machine model and proved from it.
use vstd::prelude::*;

use crate::cpu::{execute_spec, pc_plus, step_spec, Machine, RunState, FLAG};
use crate::display::{blank, covers, sprite_bit, PIXEL_COUNT, WIDTH};
use crate::error::Chip8Error;
use crate::instruction::{decode_spec, Instruction};
use crate::keyboard::{any_pressed, lowest_pressed};

verus! {

/// The state after executing the instruction word `hi lo` on `s`, with `rnd`
/// the random byte that `Cxkk` draws.
pub open spec fn execute_word(s: Machine, hi: u8, lo: u8, rnd: u8) -> Result<Machine, Chip8Error> {
    match decode_spec(hi, lo) {
        Ok(ins) => execute_spec(s, ins, rnd),
        Err(e) => Err(e),
    }
}

/// `6xkk`, then `Fx15`, then `Fz07` leaves `kk` in the delay timer and in
/// `Vz`: a value survives the round trip through the delay timer.
pub proof fn timer_round_trip(s: Machine, x: u8, z: u8, kk: u8, rnd: u8)
    requires
        s.wf(),
        x < 16,
        z < 16,
    ensures
        ({
            let s1 = execute_word(s, (0x60 + x) as u8, kk, rnd)->Ok_0;
            let s2 = execute_word(s1, (0xF0 + x) as u8, 0x15, rnd)->Ok_0;
            let s3 = execute_word(s2, (0xF0 + z) as u8, 0x07, rnd);
            &&& execute_word(s, (0x60 + x) as u8, kk, rnd) is Ok
            &&& execute_word(s1, (0xF0 + x) as u8, 0x15, rnd) is Ok
            &&& s3 is Ok
            &&& s2.dt == kk
            &&& s3->Ok_0.v[z as int] == kk
        }),
{
    let s1 = execute_word(s, (0x60 + x) as u8, kk, rnd)->Ok_0;
    let s2 = execute_word(s1, (0xF0 + x) as u8, 0x15, rnd)->Ok_0;
    assert(s1.v[x as int] == kk);
    assert(s2.dt == kk);
}

/// `8xy4` with `Vx = a`, `Vy = b` (and `x` not the flag register) leaves
/// `(a + b) mod 256` in `Vx` and sets `VF` to 1 exactly when `a + b > 255`,
/// to 0 otherwise.
#[verifier::rlimit(30)]
pub proof fn add_sets_carry(s: Machine, x: u8, y: u8, rnd: u8)
    requires
        s.wf(),
        x < 16,
        y < 16,
        x != FLAG,
    ensures
        ({
            let a = s.v[x as int];
            let b = s.v[y as int];
            let t = execute_word(s, (0x80 + x) as u8, (y * 16 + 4) as u8, rnd);
            &&& t is Ok
            &&& t->Ok_0.v[x as int] == (a + b) % 256
            &&& t->Ok_0.v[FLAG as int] == if a + b > 255 {
                1int
            } else {
                0int
            }
        }),
{
    let hi = (0x80 + x) as u8;
    let lo = (y * 16 + 4) as u8;
    assert(hi / 16 == 8 && hi % 16 == x && lo / 16 == y && lo % 16 == 4);
    assert(decode_spec(hi, lo) == Ok::<Instruction, Chip8Error>(Instruction::AddReg(x, y)));
}

/// `8xy5` with `Vx = a`, `Vy = b` (and `x` not the flag register) leaves
/// `(a - b) mod 256` in `Vx` and sets `VF` to 1 exactly when `a > b`, to 0
/// otherwise.
#[verifier::rlimit(30)]
pub proof fn sub_sets_borrow_flag(s: Machine, x: u8, y: u8, rnd: u8)
    requires
        s.wf(),
        x < 16,
        y < 16,
        x != FLAG,
    ensures
        ({
            let a = s.v[x as int];
            let b = s.v[y as int];
            let t = execute_word(s, (0x80 + x) as u8, (y * 16 + 5) as u8, rnd);
            &&& t is Ok
            &&& t->Ok_0.v[x as int] == (a - b) % 256
            &&& t->Ok_0.v[FLAG as int] == if a > b {
                1int
            } else {
                0int
            }
        }),
{
    let hi = (0x80 + x) as u8;
    let lo = (y * 16 + 5) as u8;
    assert(hi / 16 == 8 && hi % 16 == x && lo / 16 == y && lo % 16 == 5);
    assert(decode_spec(hi, lo) == Ok::<Instruction, Chip8Error>(Instruction::Sub(x, y)));
}

/// After `00E0` every pixel is dark, whatever was drawn before.
pub proof fn clear_darkens_every_pixel(s: Machine, rnd: u8, p: int)
    requires
        s.wf(),
        0 <= p < PIXEL_COUNT,
    ensures
        execute_word(s, 0x00, 0xE0, rnd) is Ok,
        !execute_word(s, 0x00, 0xE0, rnd)->Ok_0.screen[p],
{
}

/// `Fx0A` stalls the machine: executing it leaves `pc` where it is and waits
/// on `Vx`; while no key is pressed a cycle changes nothing, so any number
/// of cycles keep `pc` in place; the first cycle with a key pressed stores
/// the (lowest) pressed key code in `Vx`, resumes running and advances `pc`
/// by exactly 2.
#[verifier::rlimit(30)]
pub proof fn wait_for_key(s: Machine, x: u8, rnd: u8, keys: Seq<bool>)
    requires
        s.wf(),
        s.state == RunState::Running,
        s.pc + 2 <= s.mem.len(),
        x < 16,
        s.mem[s.pc as int] == 0xF0 + x,
        s.mem[s.pc + 1] == 0x0A,
        keys.len() == 16,
    ensures
        step_spec(s, rnd) is Ok,
        ({
            let w = step_spec(s, rnd)->Ok_0;
            &&& w.pc == s.pc
            &&& w.state == RunState::WaitingForKey(x)
            &&& !any_pressed(w.keys) ==> forall|r: u8| #[trigger] step_spec(w, r) == Ok::<
                Machine,
                Chip8Error,
            >(w)
            &&& any_pressed(keys) ==> forall|r: u8|
                {
                    let t = #[trigger] step_spec(Machine { keys, ..w }, r);
                    &&& t is Ok
                    &&& t->Ok_0.pc == pc_plus(s.pc, 2)
                    &&& t->Ok_0.v[x as int] == lowest_pressed(keys)->Some_0
                    &&& t->Ok_0.state == RunState::Running
                }
        }),
{
    assert((0xF0 + x) as u8 / 16 == 0xF && (0xF0 + x) as u8 % 16 == x);
}

/// The sprite of `n` rows at address `s.i`, as the screen sees it.
pub open spec fn sprite_at_index(s: Machine, n: u8) -> Seq<u8> {
    s.mem.subrange(s.i as int, s.i + n)
}

/// Whether the sprite `rows` has at least one set pixel.
pub open spec fn has_set_pixel(rows: Seq<u8>) -> bool {
    exists|r: int, b: int| 0 <= r < rows.len() && 0 <= b < 8 && #[trigger] sprite_bit(rows[r], b)
}

/// Drawing the same sprite twice at the same place (`Dxyn` twice, with
/// neither coordinate register being `VF`) gives back the screen as it was
/// before the first draw, and the second draw reports a collision exactly
/// when some pixel under the sprite's set pixels was dark before the first.
#[verifier::rlimit(30)]
pub proof fn redraw_restores_screen(s: Machine, x: u8, y: u8, n: u8, rnd: u8)
    requires
        s.wf(),
        x < FLAG,
        y < FLAG,
        n < 16,
        s.i + n <= s.mem.len(),
    ensures
        ({
            let d = Instruction::Draw(x, y, n);
            let t1 = execute_spec(s, d, rnd);
            let t2 = execute_spec(t1->Ok_0, d, rnd);
            let rows = sprite_at_index(s, n);
            &&& t1 is Ok
            &&& t2 is Ok
            &&& t2->Ok_0.screen == s.screen
            &&& (t2->Ok_0.v[FLAG as int] == 1) == exists|p: int|
                0 <= p < PIXEL_COUNT && !s.screen[p] && #[trigger] covers(
                    rows,
                    s.v[x as int],
                    s.v[y as int],
                    p % WIDTH as int,
                    p / WIDTH as int,
                )
        }),
{
    let d = Instruction::Draw(x, y, n);
    let t1 = execute_spec(s, d, rnd)->Ok_0;
    let t2 = execute_spec(t1, d, rnd)->Ok_0;
    let rows = sprite_at_index(s, n);
    let vx = s.v[x as int];
    let vy = s.v[y as int];
    assert(t1.v[x as int] == vx);
    assert(t1.v[y as int] == vy);
    assert(sprite_at_index(t1, n) == rows);
    assert(t2.screen =~= s.screen);
    if t2.v[FLAG as int] == 1 {
        let p = choose|p: int|
            0 <= p < PIXEL_COUNT && t1.screen[p] && #[trigger] covers(
                rows,
                vx,
                vy,
                p % WIDTH as int,
                p / WIDTH as int,
            );
        assert(!s.screen[p]);
    } else {
        assert forall|p: int|
            0 <= p < PIXEL_COUNT && !s.screen[p] implies !#[trigger] covers(
            rows,
            vx,
            vy,
            p % WIDTH as int,
            p / WIDTH as int,
        ) by {
            if covers(rows, vx, vy, p % WIDTH as int, p / WIDTH as int) {
                assert(t1.screen[p]);
            }
        }
    }
}

/// Drawing a sprite that has a set pixel twice at the same place onto a
/// region that was dark leaves `VF = 1` after the second draw and the
/// region dark again.
#[verifier::rlimit(30)]
pub proof fn redraw_on_dark_region_collides(s: Machine, x: u8, y: u8, n: u8, rnd: u8)
    requires
        s.wf(),
        x < FLAG,
        y < FLAG,
        n < 16,
        s.i + n <= s.mem.len(),
        has_set_pixel(sprite_at_index(s, n)),
        forall|p: int|
            0 <= p < PIXEL_COUNT && #[trigger] covers(
                sprite_at_index(s, n),
                s.v[x as int],
                s.v[y as int],
                p % WIDTH as int,
                p / WIDTH as int,
            ) ==> !s.screen[p],
    ensures
        ({
            let d = Instruction::Draw(x, y, n);
            let t2 = execute_spec(execute_spec(s, d, rnd)->Ok_0, d, rnd)->Ok_0;
            &&& t2.v[FLAG as int] == 1
            &&& forall|p: int|
                0 <= p < PIXEL_COUNT && #[trigger] covers(
                    sprite_at_index(s, n),
                    s.v[x as int],
                    s.v[y as int],
                    p % WIDTH as int,
                    p / WIDTH as int,
                ) ==> !t2.screen[p]
        }),
{
    redraw_restores_screen(s, x, y, n, rnd);
    let rows = sprite_at_index(s, n);
    let vx = s.v[x as int];
    let vy = s.v[y as int];
    let (r, b) = choose|r: int, b: int|
        0 <= r < rows.len() && 0 <= b < 8 && #[trigger] sprite_bit(rows[r], b);
    let x0 = vx as int % 64;
    let y0 = vy as int % 32;
    let px = if x0 + b >= 64 {
        x0 + b - 64
    } else {
        x0 + b
    };
    let py = if y0 + r >= 32 {
        y0 + r - 32
    } else {
        y0 + r
    };
    let p = py * 64 + px;
    assert(0 <= p < 2048 && p % 64 == px && p / 64 == py) by (nonlinear_arith)
        requires
            0 <= px < 64,
            0 <= py < 32,
            p == py * 64 + px,
    ;
    assert(covers(rows, vx, vy, p % WIDTH as int, p / WIDTH as int));
}

/// The machine after calling each address of `targets` in turn.
pub open spec fn after_calls(s: Machine, targets: Seq<u16>) -> Machine
    decreases targets.len(),
{
    if targets.len() == 0 {
        s
    } else {
        execute_spec(
            after_calls(s, targets.drop_last()),
            Instruction::Call(targets.last()),
            0,
        )->Ok_0
    }
}

/// The machine after `k` returns.
pub open spec fn after_returns(s: Machine, k: nat) -> Machine
    decreases k,
{
    if k == 0 {
        s
    } else {
        execute_spec(after_returns(s, (k - 1) as nat), Instruction::Return, 0)->Ok_0
    }
}

/// Where the `j`-th of the calls to `targets` is made from: the first from
/// `s.pc`, each later one from the entry of the one before.
pub open spec fn call_site(s: Machine, targets: Seq<u16>, j: int) -> u16 {
    if j == 0 {
        s.pc
    } else {
        targets[j - 1]
    }
}

proof fn lemma_after_calls(s: Machine, targets: Seq<u16>)
    requires
        s.wf(),
        s.sp + targets.len() <= 16,
    ensures
        after_calls(s, targets).wf(),
        after_calls(s, targets).sp == s.sp + targets.len(),
        forall|j: int|
            0 <= j < s.sp ==> #[trigger] after_calls(s, targets).stack[j] == s.stack[j],
        forall|j: int|
            0 <= j < targets.len() ==> #[trigger] after_calls(s, targets).stack[s.sp + j]
                == call_site(s, targets, j),
        targets.len() > 0 ==> after_calls(s, targets).pc == targets.last(),
        forall|j: int|
            0 <= j < targets.len() ==> #[trigger] execute_spec(
                after_calls(s, targets.take(j)),
                Instruction::Call(targets[j]),
                0,
            ) is Ok,
    decreases targets.len(),
{
    if targets.len() > 0 {
        let prefix = targets.drop_last();
        lemma_after_calls(s, prefix);
        let c = after_calls(s, prefix);
        assert forall|j: int| 0 <= j < targets.len() implies #[trigger] execute_spec(
            after_calls(s, targets.take(j)),
            Instruction::Call(targets[j]),
            0,
        ) is Ok by {
            if j < prefix.len() {
                assert(targets.take(j) =~= prefix.take(j));
                assert(prefix[j] == targets[j]);
            } else {
                assert(targets.take(j) =~= prefix);
            }
        }
        assert forall|j: int| 0 <= j < targets.len() implies #[trigger] after_calls(
            s,
            targets,
        ).stack[s.sp + j] == call_site(s, targets, j) by {
            if j < prefix.len() {
                assert(c.stack[s.sp + j] == call_site(s, prefix, j));
                if j > 0 {
                    assert(prefix[j - 1] == targets[j - 1]);
                }
            } else if j > 0 {
                assert(c.pc == prefix.last());
            }
        }
    }
}

proof fn lemma_after_returns(c: Machine, k: nat)
    requires
        c.wf(),
        k <= c.sp,
    ensures
        after_returns(c, k).wf(),
        after_returns(c, k).sp == c.sp - k,
        after_returns(c, k).stack == c.stack,
        k > 0 ==> after_returns(c, k).pc == pc_plus(c.stack[c.sp - k], 2),
        k < c.sp ==> execute_spec(after_returns(c, k), Instruction::Return, 0) is Ok,
        k == c.sp ==> execute_spec(after_returns(c, k), Instruction::Return, 0) == Err::<
            Machine,
            Chip8Error,
        >(Chip8Error::StackUnderflow),
    decreases k,
{
    if k > 0 {
        lemma_after_returns(c, (k - 1) as nat);
    }
}

proof fn lemma_unwind_one(s: Machine, targets: Seq<u16>, k: nat)
    requires
        s.wf(),
        s.sp == 0,
        targets.len() <= 16,
        0 < k <= targets.len(),
    ensures
        execute_spec(
            after_returns(after_calls(s, targets), (k - 1) as nat),
            Instruction::Return,
            0,
        ) is Ok,
        after_returns(after_calls(s, targets), k).pc == pc_plus(
            call_site(s, targets, targets.len() - k),
            2,
        ),
{
    lemma_after_calls(s, targets);
    let c = after_calls(s, targets);
    lemma_after_returns(c, (k - 1) as nat);
    lemma_after_returns(c, k);
    let j = targets.len() - k;
    assert(c.stack[s.sp + j] == call_site(s, targets, j));
}

/// Stack discipline: after `N <= 16` nested calls made with an empty stack,
/// every call succeeds, the `k`-th of `N` returns succeeds and lands on the
/// instruction after the call site of call `N - k` (the calls unwind in
/// reverse order), and a further return fails with `StackUnderflow`.
pub proof fn calls_unwind_in_reverse(s: Machine, targets: Seq<u16>)
    requires
        s.wf(),
        s.sp == 0,
        targets.len() <= 16,
    ensures
        forall|j: int|
            0 <= j < targets.len() ==> #[trigger] execute_spec(
                after_calls(s, targets.take(j)),
                Instruction::Call(targets[j]),
                0,
            ) is Ok,
        forall|k: nat|
            0 < k <= targets.len() ==> {
                &&& execute_spec(
                    after_returns(after_calls(s, targets), (k - 1) as nat),
                    Instruction::Return,
                    0,
                ) is Ok
                &&& (#[trigger] after_returns(after_calls(s, targets), k)).pc == pc_plus(
                    call_site(s, targets, targets.len() - k),
                    2,
                )
            },
        execute_spec(
            after_returns(after_calls(s, targets), targets.len()),
            Instruction::Return,
            0,
        ) == Err::<Machine, Chip8Error>(Chip8Error::StackUnderflow),
{
    lemma_after_calls(s, targets);
    assert forall|k: nat| 0 < k <= targets.len() implies {
        &&& execute_spec(
            after_returns(after_calls(s, targets), (k - 1) as nat),
            Instruction::Return,
            0,
        ) is Ok
        &&& (#[trigger] after_returns(after_calls(s, targets), k)).pc == pc_plus(
            call_site(s, targets, targets.len() - k),
            2,
        )
    } by {
        lemma_unwind_one(s, targets, k);
    }
    lemma_after_returns(after_calls(s, targets), targets.len());
}

} // verus!
