//! The deterministic core of the PC-98 `UK2.EXE` engine ("SOSAR SYSTEM").
//!
//! Engine globals live in a real data segment ([`mem::Mem`]) initialised
//! from the game's own `UK2.EXE`, graphics are drawn into emulated PC-98
//! bit-plane VRAM ([`vram::Vram`]), and UK2.EXE's interrupt handlers
//! (VSYNC timer, bus mouse, keyboard) are state transitions of the engine
//! that the host drives with its events and clock ticks.  Function names in
//! comments refer to the IDA listing.
use vstd::prelude::*;

pub mod battle;
pub mod ds;
pub mod font;
pub mod gfx;
pub mod interp;
pub mod map;
pub mod mem;
pub mod object;
pub mod palette;
pub mod text;
pub mod pmd;
pub mod vram;

use ds::{
    ABORT, CURSOR_ANIM_COUNT, CURSOR_ANIM_RATE, CURSOR_FRAME, CURSOR_FRAMES, CURSOR_MODE, CURSOR_SHOWN, EVENT_LIFETIME,
    FRAME_TIMER, KEYS_ENABLED, KEY_ASCII, KEY_TABLE, LEFT_HELD, LEFT_PRESSES, LEFT_PRESS_X, LEFT_PRESS_Y,
    LEFT_RELEASES, LEFT_RELEASE_X, LEFT_RELEASE_Y, MOUSE_MAX_X, MOUSE_MAX_Y, MOUSE_MIN_X, MOUSE_MIN_Y,
    MOUSE_PREV_LEFT, MOUSE_PREV_RIGHT, MOUSE_X, MOUSE_Y, PRESS_TIMER, RELEASE_TIMER, RIGHT_HELD, RIGHT_PRESSES,
    RIGHT_PRESS_X, RIGHT_PRESS_Y, RIGHT_RELEASES, RIGHT_RELEASE_X, RIGHT_RELEASE_Y, TICKS, TIMER_A,
};
use mem::{ds_word, set_ds_word, FarPtr, Mem, MemView};
use vram::{vram_wf, Vram};

verus! {

/// PC-98 keyboard scan codes used by the engine.
pub const SCAN_ESC: u8 = 0x00;
pub const SCAN_RETURN: u8 = 0x1C;
pub const SCAN_SPACE: u8 = 0x34;
pub const SCAN_UP: u8 = 0x3A;
pub const SCAN_LEFT: u8 = 0x3B;
pub const SCAN_RIGHT: u8 = 0x3C;
pub const SCAN_DOWN: u8 = 0x3D;
pub const SCAN_PAD8: u8 = 0x43;
pub const SCAN_PAD4: u8 = 0x46;
pub const SCAN_PAD6: u8 = 0x48;
pub const SCAN_PAD2: u8 = 0x4B;
pub const SCAN_VF1: u8 = 0x52;
pub const SCAN_SHIFT: u8 = 0x70;
pub const SCAN_CAPS: u8 = 0x71;
pub const SCAN_GRPH: u8 = 0x73;
pub const SCAN_CTRL: u8 = 0x74;

/// Instructions the emulated CPU executes per VSYNC before it is throttled.
pub const INSTRUCTIONS_PER_TICK: u32 = 3000;

#[derive(Debug, Clone, Copy, PartialEq, Eq)]
pub enum HostEvent {
    /// Absolute pointer position in 640x400 screen pixels.
    MouseMove { x: i32, y: i32 },
    MouseButton { left: bool, pressed: bool },
    /// PC-98 scan code; repeats are delivered as further presses.
    Key { code: u8, pressed: bool },
    Quit,
}

/// The engine's machine state: memory, VRAM, the C runtime's random seed,
/// the host's pointer and buttons, and the instruction clock.
pub struct Engine {
    pub mem: Mem,
    pub vram: Vram,
    rng: u32,
    host_mouse: (i32, i32),
    host_buttons: u8,
    quit: bool,
    last_tick: u64,
    instructions_since_tick: u32,
    pub trace: bool,
    /// Log every MES file the interpreter enters.
    pub trace_mes: bool,
    pub instruction_count: u64,
    pub max_instructions: Option<u64>,
    /// The MES programs being run, innermost last.
    programs: Vec<Vec<u8>>,
}

/// The Borland C `rand()` seed after one call.
pub open spec fn next_seed(s: u32) -> u32 {
    s.wrapping_mul(0x015A_4E35).wrapping_add(1)
}

/// What `rand()` returns for the seed it leaves.
pub open spec fn rand_value(s: u32) -> u16 {
    ((s >> 16u32) & 0x7fff) as u16
}

/// Rust's `/` on integers: the quotient truncated toward zero.
pub open spec fn trunc_div(a: int, b: int) -> int {
    if a >= 0 {
        a / b
    } else {
        -((-a) / b)
    }
}

impl Engine {
    pub closed spec fn seed(&self) -> u32 {
        self.rng
    }

    pub closed spec fn host_pointer(&self) -> (i32, i32) {
        self.host_mouse
    }

    pub closed spec fn buttons(&self) -> u8 {
        self.host_buttons
    }

    pub closed spec fn quitting(&self) -> bool {
        self.quit
    }

    pub closed spec fn tick(&self) -> u64 {
        self.last_tick
    }

    pub closed spec fn since_tick(&self) -> u32 {
        self.instructions_since_tick
    }

    pub closed spec fn instructions(&self) -> u64 {
        self.instruction_count
    }

    pub closed spec fn instruction_limit(&self) -> Option<u64> {
        self.max_instructions
    }

    /// The engine's memory.
    pub closed spec fn memory(&self) -> MemView {
        self.mem@
    }

    /// The bytes of the innermost MES program being run (none: empty).
    pub closed spec fn program(&self) -> Seq<u8> {
        if self.programs@.len() == 0 {
            Seq::empty()
        } else {
            self.programs@.last()@
        }
    }

    /// How many MES programs are being run.
    pub closed spec fn depth(&self) -> nat {
        self.programs@.len()
    }

    /// The engine's VRAM.
    pub closed spec fn screen(&self) -> Vram {
        self.vram
    }

    /// Memory is well formed.
    pub closed spec fn mem_ok(&self) -> bool {
        self.mem.wf()
    }

    /// Memory and VRAM are well formed.
    pub closed spec fn wf(&self) -> bool {
        self.mem_ok() && vram_wf(self.vram)
    }

    /// A machine on `mem` with blank VRAM, the pointer at the bottom right,
    /// no buttons held and the random seed `seed`.
    pub fn new(mem: Mem, seed: u32, tick: u64) -> (res: Self)
        requires
            mem.wf(),
        ensures
            res.wf(),
            res.memory() == mem@,
            res.seed() == seed,
            res.host_pointer() == (0x27fi32, 0x18fi32),
            res.buttons() == 0,
            !res.quitting(),
            res.tick() == tick,
            res.since_tick() == 0,
            res.instructions() == 0,
            res.instruction_limit() is None,
            res.depth() == 0,
    {
        Engine {
            mem,
            vram: Vram::new(),
            rng: seed,
            host_mouse: (0x27f, 0x18f),
            host_buttons: 0,
            quit: false,
            last_tick: tick,
            instructions_since_tick: 0,
            trace: false,
            trace_mes: false,
            instruction_count: 0,
            max_instructions: None,
            programs: Vec::new(),
        }
    }

    // ---- small helpers -------------------------------------------------

    pub fn w(&self, off: u16) -> (res: u16)
        requires
            self.mem_ok(),
        ensures
            res == ds_word(self.memory().ds, off),
    {
        self.mem.w(off)
    }

    pub fn sw(&self, off: u16) -> (res: i16)
        requires
            self.mem_ok(),
        ensures
            res == ds_word(self.memory().ds, off) as i16,
    {
        self.mem.sw(off)
    }

    pub fn set_w(&mut self, off: u16, value: u16)
        requires
            old(self).mem_ok(),
        ensures
            final(self).mem_ok(),
            final(self).memory().ds == set_ds_word(old(self).memory().ds, off, value),
            final(self).memory().heap == old(self).memory().heap,
            final(self).memory().free == old(self).memory().free,
            final(self).screen() == old(self).screen(),
            final(self).seed() == old(self).seed(),
    {
        self.mem.set_w(off, value);
    }

    pub fn b(&self, off: u16) -> (res: u8)
        requires
            self.mem_ok(),
        ensures
            res == self.memory().ds[off as int],
    {
        self.mem.b(off)
    }

    pub fn set_b(&mut self, off: u16, value: u8)
        requires
            old(self).mem_ok(),
        ensures
            final(self).mem_ok(),
            final(self).memory().ds == old(self).memory().ds.update(off as int, value),
            final(self).memory().heap == old(self).memory().heap,
            final(self).memory().free == old(self).memory().free,
            final(self).screen() == old(self).screen(),
            final(self).seed() == old(self).seed(),
    {
        self.mem.set_b(off, value);
    }

    /// Borland C `rand()`.
    pub fn rand(&mut self) -> (res: u16)
        ensures
            final(self).seed() == next_seed(old(self).seed()),
            res == rand_value(next_seed(old(self).seed())),
            final(self).memory() == old(self).memory(),
            final(self).screen() == old(self).screen(),
    {
        self.rng = self.rng.wrapping_mul(0x015A_4E35).wrapping_add(1);
        ((self.rng >> 16) & 0x7fff) as u16
    }

    /// The executable's `rand() * n / 0x8000` idiom.
    pub fn rand_n(&mut self, n: i32) -> (res: i32)
        requires
            -0x10000 <= n <= 0x10000,
        ensures
            final(self).seed() == next_seed(old(self).seed()),
            res == trunc_div(rand_value(next_seed(old(self).seed())) as int * n, 0x8000),
            final(self).memory() == old(self).memory(),
            final(self).screen() == old(self).screen(),
    {
        let r = self.rand();
        let ghost sd = next_seed(old(self).seed());
        assert(r <= 0x7fff) by (bit_vector)
            requires
                r == ((sd >> 16u32) & 0x7fff) as u16,
        ;
        let v = (r as i16) as i32;
        assert(v * n <= 0x7fff * 0x10000 && v * n >= -0x7fff * 0x10000) by (nonlinear_arith)
            requires
                0 <= v <= 0x7fff,
                -0x10000 <= n <= 0x10000,
        ;
        (v * n) / 0x8000
    }

    pub fn key(&self, code: u8) -> (res: bool)
        requires
            self.mem_ok(),
        ensures
            res == (self.memory().ds[KEY_TABLE + code] != 0),
    {
        self.b(KEY_TABLE + code as u16) != 0
    }

    /// `sub_21339`: shift-key state bits (1 SHIFT, 2 CAPS, 8 GRPH, 0x10 CTRL).
    pub fn shift_state(&self) -> (res: u8)
        requires
            self.mem_ok(),
        ensures
            res == (if key_down(self.memory().ds, SCAN_SHIFT) { 1u8 } else { 0u8 }) | (if key_down(self.memory().ds, SCAN_CTRL) {
                0x10u8
            } else {
                0u8
            }) | (if key_down(self.memory().ds, SCAN_GRPH) { 8u8 } else { 0u8 }) | (if key_down(self.memory().ds, SCAN_CAPS) {
                2u8
            } else {
                0u8
            }),
    {
        let s1: u8 = if self.key(SCAN_SHIFT) {
            1
        } else {
            0
        };
        let s2: u8 = if self.key(SCAN_CTRL) {
            0x10
        } else {
            0
        };
        let s3: u8 = if self.key(SCAN_GRPH) {
            8
        } else {
            0
        };
        let s4: u8 = if self.key(SCAN_CAPS) {
            2
        } else {
            0
        };
        s1 | s2 | s3 | s4
    }

    /// `sub_213F4`: cursor/numeric-pad direction bits (1 up, 2 down, 4 left,
    /// 8 right).
    pub fn direction_keys(&self) -> (res: u16)
        requires
            self.mem_ok(),
        ensures
            res == direction_bits(self.memory().ds),
    {
        let up: u16 = if self.key(SCAN_PAD8) || self.key(SCAN_UP) {
            1
        } else {
            0
        };
        let left: u16 = if self.key(SCAN_PAD4) || self.key(SCAN_LEFT) {
            4
        } else {
            0
        };
        let down: u16 = if self.key(SCAN_PAD2) || self.key(SCAN_DOWN) {
            2
        } else {
            0
        };
        let right: u16 = if self.key(SCAN_PAD6) || self.key(SCAN_RIGHT) {
            8
        } else {
            0
        };
        up | left | down | right
    }

    /// `sub_2144B`: ASCII code of the first pressed key.
    pub fn pressed_ascii(&self) -> (res: u8)
        requires
            self.mem_ok(),
        ensures
            res == if first_key_from(self.memory().ds, 0) < 0x80 {
                self.memory().ds[KEY_ASCII + first_key_from(self.memory().ds, 0)]
            } else {
                0u8
            },
    {
        let mut code: u16 = 0;
        while code < 0x80
            invariant
                self.mem_ok(),
                code <= 0x80,
                first_key_from(self.memory().ds, 0) == first_key_from(self.memory().ds, code as int),
            decreases 0x80 - code,
        {
            if self.b(KEY_TABLE + code) != 0 {
                return self.b(KEY_ASCII + code);
            }
            code = code + 1;
        }
        0
    }
}

/// The first scan code from `c` on whose key is held, or 0x80.
pub open spec fn first_key_from(ds: Seq<u8>, c: int) -> int
    decreases 0x80 - c,
{
    if c >= 0x80 || c < 0 {
        0x80
    } else if ds[KEY_TABLE + c] != 0 {
        c
    } else {
        first_key_from(ds, c + 1)
    }
}

/// Key `code` is held in the key table of `ds`.
/// The direction bits of the pressed keys: 1 up, 2 down, 4 left, 8 right
/// (cursor keys or the numeric pad).
pub open spec fn direction_bits(ds: Seq<u8>) -> u16 {
    (if key_down(ds, SCAN_PAD8) || key_down(ds, SCAN_UP) { 1u16 } else { 0u16 })
        | (if key_down(ds, SCAN_PAD4) || key_down(ds, SCAN_LEFT) { 4u16 } else { 0u16 })
        | (if key_down(ds, SCAN_PAD2) || key_down(ds, SCAN_DOWN) { 2u16 } else { 0u16 })
        | (if key_down(ds, SCAN_PAD6) || key_down(ds, SCAN_RIGHT) { 8u16 } else { 0u16 })
}

pub open spec fn key_down(ds: Seq<u8>, code: u8) -> bool {
    ds[KEY_TABLE + code] != 0
}

// ---------------------------------------------------------------- interrupts

/// A timer word counted down to zero.
pub open spec fn count_down(ds: Seq<u8>, off: u16) -> Seq<u8> {
    if ds_word(ds, off) != 0 {
        set_ds_word(ds, off, (ds_word(ds, off) - 1) as u16)
    } else {
        ds
    }
}

/// An event timer counted down; at its last tick the two counters it
/// guards are cleared.
pub open spec fn event_timer(ds: Seq<u8>, timer: u16, right: u16, left: u16) -> Seq<u8> {
    let t = ds_word(ds, timer);
    if t != 0 {
        let d = set_ds_word(ds, timer, (t - 1) as u16);
        if t == 1 {
            set_ds_word(set_ds_word(d, right, 0), left, 0)
        } else {
            d
        }
    } else {
        ds
    }
}

/// `sub_2146C`: the data segment after one VSYNC interrupt, and whether the
/// animated cursor advanced (the display must be refreshed).
pub open spec fn vsync_ds(ds: Seq<u8>) -> (Seq<u8>, bool) {
    let d1 = set_ds_word(ds, TICKS, ds_word(ds, TICKS).wrapping_add(1));
    let d3 = count_down(count_down(d1, TIMER_A), FRAME_TIMER);
    let (d4, advanced) = if ds_word(d3, CURSOR_ANIM_RATE) != 0 {
        let count = ds_word(d3, CURSOR_ANIM_COUNT);
        if count != 0 {
            (set_ds_word(d3, CURSOR_ANIM_COUNT, (count - 1) as u16), false)
        } else {
            let next = ds_word(d3, CURSOR_FRAME).wrapping_add(1);
            let frame = if ds_word(d3, CURSOR_FRAMES) < next {
                0u16
            } else {
                next
            };
            let d = set_ds_word(d3, CURSOR_FRAME, frame);
            (set_ds_word(d, CURSOR_ANIM_COUNT, ds_word(d, CURSOR_ANIM_RATE)), true)
        }
    } else {
        (d3, false)
    };
    let d5 = event_timer(d4, PRESS_TIMER, RIGHT_PRESSES, LEFT_PRESSES);
    (event_timer(d5, RELEASE_TIMER, RIGHT_RELEASES, LEFT_RELEASES), advanced)
}

/// Scan codes whose key bytes are cleared while cursor/Return/Space/ESC
/// input is disabled.
pub open spec fn gated_keys() -> Seq<u8> {
    seq![0x3Bu8, 0x3C, 0x3A, 0x3D, 0x34, 0x00, 0x1C, 0x46, 0x48, 0x4B, 0x43, 0x52]
}

/// The key table with the gated keys released.
pub open spec fn release_gated(ds: Seq<u8>) -> Seq<u8> {
    Seq::new(ds.len(), |i: int| if exists|k: int| 0 <= k < 12 && i == KEY_TABLE + gated_keys()[k] { 0u8 } else { ds[i] })
}

/// Keyboard interrupt handler (seg055): the data segment after key `code`
/// went down or up.
pub open spec fn keyboard_ds(ds: Seq<u8>, code: u8, pressed: bool) -> Seq<u8> {
    if code >= 0x80 {
        ds
    } else {
        let d1 = ds.update(KEY_TABLE + code, if pressed { 1u8 } else { 0u8 });
        let d2 = if key_down(d1, SCAN_SHIFT) && key_down(d1, SCAN_GRPH) && key_down(d1, SCAN_CTRL) {
            set_ds_word(d1, ABORT, 1)
        } else {
            d1
        };
        let d3 = if ds_word(d2, KEYS_ENABLED) == 0 {
            release_gated(d2)
        } else {
            d2
        };
        if ds_word(d3, CURSOR_MODE) != 2 {
            let d4 = if key_down(d3, SCAN_RETURN) || key_down(d3, SCAN_SPACE) {
                set_ds_word(set_ds_word(d3, LEFT_HELD, 1), LEFT_PRESSES, 1)
            } else {
                d3
            };
            if key_down(d4, SCAN_ESC) || key_down(d4, SCAN_VF1) {
                set_ds_word(set_ds_word(d4, RIGHT_HELD, 1), RIGHT_PRESSES, 1)
            } else {
                d4
            }
        } else {
            d3
        }
    }
}

/// One button's press/release bookkeeping: `prev + held` is 1 on a press
/// and 2 on a release.
#[verifier::opaque]
pub open spec fn button_edge(
    ds: Seq<u8>,
    prev: u16,
    held: u16,
    press_x: u16,
    press_y: u16,
    presses: u16,
    release_x: u16,
    release_y: u16,
    releases: u16,
    lifetime: u16,
    mx: u16,
    my: u16,
) -> Seq<u8> {
    let edge = ds_word(ds, prev) + ds_word(ds, held);
    if edge == 1 {
        let d = set_ds_word(set_ds_word(ds, press_x, mx), press_y, my);
        let d = if ds_word(d, PRESS_TIMER) == 0 {
            set_ds_word(d, PRESS_TIMER, lifetime)
        } else {
            d
        };
        set_ds_word(d, presses, ds_word(d, presses).wrapping_add(1))
    } else if edge == 2 {
        let d = set_ds_word(set_ds_word(ds, release_x, mx), release_y, my);
        let d = if ds_word(d, RELEASE_TIMER) == 0 {
            set_ds_word(d, RELEASE_TIMER, lifetime)
        } else {
            d
        };
        set_ds_word(d, releases, ds_word(d, releases).wrapping_add(1))
    } else {
        ds
    }
}

/// Two data-segment words that do not share a byte.
pub open spec fn apart(a: u16, b: u16) -> bool {
    a < 0xffff && b < 0xffff && a != b && a + 1 != b && b + 1 != a
}

/// The button bookkeeping leaves every word apart from those it writes.
pub proof fn lemma_button_edge_keeps(
    ds: Seq<u8>,
    prev: u16,
    held: u16,
    press_x: u16,
    press_y: u16,
    presses: u16,
    release_x: u16,
    release_y: u16,
    releases: u16,
    lifetime: u16,
    mx: u16,
    my: u16,
    o: u16,
)
    requires
        ds.len() == 0x10000,
        apart(o, press_x),
        apart(o, press_y),
        apart(o, presses),
        apart(o, release_x),
        apart(o, release_y),
        apart(o, releases),
        apart(o, PRESS_TIMER),
        apart(o, RELEASE_TIMER),
    ensures
        ds_word(button_edge(ds, prev, held, press_x, press_y, presses, release_x, release_y, releases, lifetime, mx, my), o)
            == ds_word(ds, o),
{
    reveal(button_edge);
    let edge = ds_word(ds, prev) + ds_word(ds, held);
    if edge == 1 {
        let d1 = set_ds_word(ds, press_x, mx);
        lemma_set_word_keeps(ds, press_x, mx, o);
        let d2 = set_ds_word(d1, press_y, my);
        lemma_set_word_keeps(d1, press_y, my, o);
        let d3 = if ds_word(d2, PRESS_TIMER) == 0 {
            lemma_set_word_keeps(d2, PRESS_TIMER, lifetime, o);
            set_ds_word(d2, PRESS_TIMER, lifetime)
        } else {
            d2
        };
        lemma_set_word_keeps(d3, presses, ds_word(d3, presses).wrapping_add(1), o);
    } else if edge == 2 {
        let d1 = set_ds_word(ds, release_x, mx);
        lemma_set_word_keeps(ds, release_x, mx, o);
        let d2 = set_ds_word(d1, release_y, my);
        lemma_set_word_keeps(d1, release_y, my, o);
        let d3 = if ds_word(d2, RELEASE_TIMER) == 0 {
            lemma_set_word_keeps(d2, RELEASE_TIMER, lifetime, o);
            set_ds_word(d2, RELEASE_TIMER, lifetime)
        } else {
            d2
        };
        lemma_set_word_keeps(d3, releases, ds_word(d3, releases).wrapping_add(1), o);
    }
}

/// Storing a word leaves the words apart from it, and the length.
pub proof fn lemma_set_word_keeps(ds: Seq<u8>, a: u16, v: u16, o: u16)
    requires
        ds.len() == 0x10000,
        apart(a, o),
    ensures
        ds_word(set_ds_word(ds, a, v), o) == ds_word(ds, o),
        set_ds_word(ds, a, v).len() == 0x10000,
{
    assert((a as int + 1) % 65536 == a + 1);
    assert((o as int + 1) % 65536 == o + 1);
}

/// `v.max(lo).min(hi)`.
pub open spec fn clamp_i32(v: int, lo: int, hi: int) -> int {
    let a = if v > lo {
        v
    } else {
        lo
    };
    if a < hi {
        a
    } else {
        hi
    }
}

/// The button half of the mouse handler: held flags, press/release
/// events, and the previous-state words.
#[verifier::opaque]
pub open spec fn mouse_buttons_ds(ds: Seq<u8>, buttons: u8) -> Seq<u8> {
    let d1 = set_ds_word(ds, RIGHT_HELD, if buttons & 2 != 0 { 1u16 } else { 0u16 });
    let d2 = set_ds_word(d1, LEFT_HELD, if buttons & 1 != 0 { 1u16 } else { 0u16 });
    let lifetime = d2[EVENT_LIFETIME as int] as u16;
    let mx = ds_word(d2, MOUSE_X);
    let my = ds_word(d2, MOUSE_Y);
    let d3 = button_edge(
        d2,
        MOUSE_PREV_RIGHT,
        RIGHT_HELD,
        RIGHT_PRESS_X,
        RIGHT_PRESS_Y,
        RIGHT_PRESSES,
        RIGHT_RELEASE_X,
        RIGHT_RELEASE_Y,
        RIGHT_RELEASES,
        lifetime,
        mx,
        my,
    );
    let d4 = button_edge(
        d3,
        MOUSE_PREV_LEFT,
        LEFT_HELD,
        LEFT_PRESS_X,
        LEFT_PRESS_Y,
        LEFT_PRESSES,
        LEFT_RELEASE_X,
        LEFT_RELEASE_Y,
        LEFT_RELEASES,
        lifetime,
        mx,
        my,
    );
    let right = ds_word(d4, RIGHT_HELD);
    let left = ds_word(d4, LEFT_HELD);
    set_ds_word(set_ds_word(d4, MOUSE_PREV_RIGHT, (right * 2) as u16), MOUSE_PREV_LEFT, (left * 2) as u16)
}

/// The motion half of the mouse handler: the cursor follows the host
/// pointer inside the clamping rectangle; whether a shown cursor moved.
#[verifier::opaque]
pub open spec fn mouse_motion_ds(ds: Seq<u8>, host: (i32, i32)) -> (Seq<u8>, bool) {
    let ox = ds_word(ds, MOUSE_X) as i16 as int;
    let oy = ds_word(ds, MOUSE_Y) as i16 as int;
    if host.0 == ox && host.1 == oy {
        (ds, false)
    } else {
        let x = clamp_i32(host.0 as int, ds_word(ds, MOUSE_MIN_X) as i16 as int, ds_word(ds, MOUSE_MAX_X) as i16 as int);
        let y = clamp_i32(host.1 as int, ds_word(ds, MOUSE_MIN_Y) as i16 as int, ds_word(ds, MOUSE_MAX_Y) as i16 as int);
        if x != ox || y != oy {
            let d6 = set_ds_word(set_ds_word(ds, MOUSE_X, x as u16), MOUSE_Y, y as u16);
            (d6, ds_word(d6, CURSOR_SHOWN) != 0)
        } else {
            (ds, false)
        }
    }
}

/// `sub_2184F`: the data segment after a mouse interrupt with the host's
/// pointer at `host` and buttons `buttons` (bit 0 left, bit 1 right), and
/// whether the shown cursor moved.
pub open spec fn mouse_ds(ds: Seq<u8>, host: (i32, i32), buttons: u8) -> (Seq<u8>, bool) {
    if ds_word(ds, CURSOR_MODE) == 2 {
        (ds, false)
    } else {
        let d5 = mouse_buttons_ds(ds, buttons);
        if ds_word(d5, CURSOR_MODE) != 0 {
            (d5, false)
        } else {
            mouse_motion_ds(d5, host)
        }
    }
}

/// The mouse handler can run: it is off, or neither button's previous
/// state word is at its maximum.
pub open spec fn mouse_ready(ds: Seq<u8>) -> bool {
    ds_word(ds, CURSOR_MODE) == 2 || (ds_word(ds, MOUSE_PREV_RIGHT) < 0xffff && ds_word(ds, MOUSE_PREV_LEFT) < 0xffff)
}

/// A host pointer coordinate the handler can move by without overflow.
pub open spec fn host_coord_ok(v: i32) -> bool {
    -0x7fff_0000 <= v <= 0x7fff_0000
}

impl Engine {
    /// `sub_2146C`: VSYNC interrupt body.
    #[verifier::rlimit(80)]
    pub fn vsync_irq(&mut self)
        requires
            old(self).wf(),
        ensures
            final(self).wf(),
            final(self).memory().ds == vsync_ds(old(self).memory().ds).0,
            final(self).memory().heap == old(self).memory().heap,
            final(self).memory().free == old(self).memory().free,
            final(self).screen().pages == old(self).screen().pages,
            final(self).screen().dirty == (old(self).screen().dirty || vsync_ds(old(self).memory().ds).1),
            final(self).seed() == old(self).seed(),
            final(self).host_pointer() == old(self).host_pointer(),
            final(self).buttons() == old(self).buttons(),
            final(self).quitting() == old(self).quitting(),
            final(self).tick() == old(self).tick(),
            final(self).since_tick() == old(self).since_tick(),
    {
        let ticks = self.mem.w(TICKS).wrapping_add(1);
        self.mem.set_w(TICKS, ticks);
        let a = self.mem.w(TIMER_A);
        if a != 0 {
            self.mem.set_w(TIMER_A, a - 1);
        }
        let f = self.mem.w(FRAME_TIMER);
        if f != 0 {
            self.mem.set_w(FRAME_TIMER, f - 1);
        }
        if self.mem.w(CURSOR_ANIM_RATE) != 0 {
            let count = self.mem.w(CURSOR_ANIM_COUNT);
            if count != 0 {
                self.mem.set_w(CURSOR_ANIM_COUNT, count - 1);
            } else {
                // sub_215B1: advance the animated cursor frame.
                let mut frame = self.mem.w(CURSOR_FRAME).wrapping_add(1);
                if self.mem.w(CURSOR_FRAMES) < frame {
                    frame = 0;
                }
                self.mem.set_w(CURSOR_FRAME, frame);
                let rate = self.mem.w(CURSOR_ANIM_RATE);
                self.mem.set_w(CURSOR_ANIM_COUNT, rate);
                self.vram.dirty = true;
            }
        }
        let press = self.mem.w(PRESS_TIMER);
        if press != 0 {
            self.mem.set_w(PRESS_TIMER, press - 1);
            if press == 1 {
                self.mem.set_w(RIGHT_PRESSES, 0);
                self.mem.set_w(LEFT_PRESSES, 0);
            }
        }
        let release = self.mem.w(RELEASE_TIMER);
        if release != 0 {
            self.mem.set_w(RELEASE_TIMER, release - 1);
            if release == 1 {
                self.mem.set_w(RIGHT_RELEASES, 0);
                self.mem.set_w(LEFT_RELEASES, 0);
            }
        }
    }

    /// Keyboard interrupt handler (seg055).
    pub fn keyboard_irq(&mut self, code: u8, pressed: bool)
        requires
            old(self).wf(),
        ensures
            final(self).wf(),
            final(self).memory().ds == keyboard_ds(old(self).memory().ds, code, pressed),
            final(self).memory().heap == old(self).memory().heap,
            final(self).memory().free == old(self).memory().free,
            final(self).screen() == old(self).screen(),
            final(self).seed() == old(self).seed(),
            final(self).host_pointer() == old(self).host_pointer(),
            final(self).buttons() == old(self).buttons(),
            final(self).quitting() == old(self).quitting(),
            final(self).tick() == old(self).tick(),
            final(self).since_tick() == old(self).since_tick(),
    {
        if code >= 0x80 {
            return;
        }
        self.mem.set_b(KEY_TABLE + code as u16, if pressed {
            1
        } else {
            0
        });
        if self.key(SCAN_SHIFT) && self.key(SCAN_GRPH) && self.key(SCAN_CTRL) {
            self.mem.set_w(ABORT, 1);
        }
        if self.mem.w(KEYS_ENABLED) == 0 {
            proof {
                self.mem.lemma_wf();
            }
            let ghost before = self.memory().ds;
            let gated: [u8; 12] = [0x3B, 0x3C, 0x3A, 0x3D, 0x34, 0x00, 0x1C, 0x46, 0x48, 0x4B, 0x43, 0x52];
            let mut k: usize = 0;
            while k < 12
                invariant
                    self.wf(),
                    gated@ == gated_keys(),
                    k <= 12,
                    self.memory().heap == old(self).memory().heap,
                    self.memory().free == old(self).memory().free,
                    self.screen() == old(self).screen(),
                    self.seed() == old(self).seed(),
                    self.host_pointer() == old(self).host_pointer(),
                    self.buttons() == old(self).buttons(),
                    self.quitting() == old(self).quitting(),
                    self.tick() == old(self).tick(),
                    self.since_tick() == old(self).since_tick(),
                    before.len() == 0x10000,
                    self.memory().ds == Seq::new(
                        before.len(),
                        |i: int| if exists|j: int| 0 <= j < k && i == KEY_TABLE + gated_keys()[j] { 0u8 } else { before[i] },
                    ),
                decreases 12 - k,
            {
                let ghost cur = self.memory().ds;
                self.mem.set_b(KEY_TABLE + gated[k] as u16, 0);
                proof {
                    assert(self.memory().ds =~= Seq::new(
                        before.len(),
                        |i: int| if exists|j: int| 0 <= j < k + 1 && i == KEY_TABLE + gated_keys()[j] { 0u8 } else { before[i] },
                    )) by {
                        assert forall|i: int| 0 <= i < before.len() implies self.memory().ds[i] == (if exists|j: int| 0 <= j < k + 1 && i == KEY_TABLE + gated_keys()[j] { 0u8 } else { before[i] }) by {
                            if i == KEY_TABLE + gated_keys()[k as int] {
                            } else if exists|j: int| 0 <= j < k + 1 && i == KEY_TABLE + gated_keys()[j] {
                                let j = choose|j: int| 0 <= j < k + 1 && i == KEY_TABLE + gated_keys()[j];
                                assert(j < k);
                            }
                        }
                    }
                }
                k = k + 1;
            }
            assert(self.memory().ds =~= release_gated(before));
        }
        if self.mem.w(CURSOR_MODE) != 2 {
            if self.key(SCAN_RETURN) || self.key(SCAN_SPACE) {
                self.mem.set_w(LEFT_HELD, 1);
                self.mem.set_w(LEFT_PRESSES, 1);
            }
            if self.key(SCAN_ESC) || self.key(SCAN_VF1) {
                self.mem.set_w(RIGHT_HELD, 1);
                self.mem.set_w(RIGHT_PRESSES, 1);
            }
        }
    }
}

impl Engine {
    /// The host pointer is in the range the mouse handler moves by.
    pub closed spec fn host_ok(&self) -> bool {
        host_coord_ok(self.host_mouse.0) && host_coord_ok(self.host_mouse.1)
    }

    /// One button's press/release bookkeeping of the mouse handler.
    fn button_edge_exec(
        &mut self,
        prev: u16,
        held: u16,
        press_x: u16,
        press_y: u16,
        presses: u16,
        release_x: u16,
        release_y: u16,
        releases: u16,
        lifetime: u16,
        mx: u16,
        my: u16,
    )
        requires
            old(self).wf(),
            ds_word(old(self).memory().ds, prev) < 0xffff,
            ds_word(old(self).memory().ds, held) <= 1,
        ensures
            final(self).wf(),
            final(self).memory().ds == button_edge(
                old(self).memory().ds,
                prev,
                held,
                press_x,
                press_y,
                presses,
                release_x,
                release_y,
                releases,
                lifetime,
                mx,
                my,
            ),
            final(self).memory().heap == old(self).memory().heap,
            final(self).memory().free == old(self).memory().free,
            final(self).vram == old(self).vram,
            final(self).rng == old(self).rng,
            final(self).host_mouse == old(self).host_mouse,
            final(self).host_buttons == old(self).host_buttons,
            final(self).quit == old(self).quit,
            final(self).last_tick == old(self).last_tick,
            final(self).instructions_since_tick == old(self).instructions_since_tick,
    {
        proof {
            self.mem.lemma_wf();
            reveal(button_edge);
        }
        let edge = self.mem.w(prev) + self.mem.w(held);
        if edge == 1 {
            self.mem.set_w(press_x, mx);
            self.mem.set_w(press_y, my);
            if self.mem.w(PRESS_TIMER) == 0 {
                self.mem.set_w(PRESS_TIMER, lifetime);
            }
            let v = self.mem.w(presses).wrapping_add(1);
            self.mem.set_w(presses, v);
        } else if edge == 2 {
            self.mem.set_w(release_x, mx);
            self.mem.set_w(release_y, my);
            if self.mem.w(RELEASE_TIMER) == 0 {
                self.mem.set_w(RELEASE_TIMER, lifetime);
            }
            let v = self.mem.w(releases).wrapping_add(1);
            self.mem.set_w(releases, v);
        }
    }

    /// The button half of the mouse handler.
    #[verifier::rlimit(40)]
    fn mouse_buttons(&mut self)
        requires
            old(self).wf(),
            ds_word(old(self).memory().ds, MOUSE_PREV_RIGHT) < 0xffff,
            ds_word(old(self).memory().ds, MOUSE_PREV_LEFT) < 0xffff,
        ensures
            final(self).wf(),
            final(self).memory().ds == mouse_buttons_ds(old(self).memory().ds, old(self).host_buttons),
            ds_word(final(self).memory().ds, CURSOR_MODE) == ds_word(old(self).memory().ds, CURSOR_MODE),
            ds_word(final(self).memory().ds, MOUSE_PREV_RIGHT) <= 2,
            ds_word(final(self).memory().ds, MOUSE_PREV_LEFT) <= 2,
            final(self).memory().heap == old(self).memory().heap,
            final(self).memory().free == old(self).memory().free,
            final(self).vram == old(self).vram,
            final(self).rng == old(self).rng,
            final(self).host_mouse == old(self).host_mouse,
            final(self).host_buttons == old(self).host_buttons,
            final(self).quit == old(self).quit,
            final(self).last_tick == old(self).last_tick,
            final(self).instructions_since_tick == old(self).instructions_since_tick,
    {
        proof {
            self.mem.lemma_wf();
            reveal(mouse_buttons_ds);
        }
        let buttons = self.host_buttons;
        self.mem.set_w(RIGHT_HELD, if buttons & 2 != 0 {
            1
        } else {
            0
        });
        self.mem.set_w(LEFT_HELD, if buttons & 1 != 0 {
            1
        } else {
            0
        });
        let lifetime = self.mem.b(EVENT_LIFETIME) as u16;
        let mx = self.mem.w(MOUSE_X);
        let my = self.mem.w(MOUSE_Y);
        assert(ds_word(self.memory().ds, MOUSE_PREV_RIGHT) == ds_word(old(self).memory().ds, MOUSE_PREV_RIGHT));
        assert(ds_word(self.memory().ds, MOUSE_PREV_LEFT) == ds_word(old(self).memory().ds, MOUSE_PREV_LEFT));
        assert(ds_word(self.memory().ds, RIGHT_HELD) <= 1);
        assert(ds_word(self.memory().ds, LEFT_HELD) <= 1);
        let ghost d2 = self.memory().ds;
        self.button_edge_exec(
            MOUSE_PREV_RIGHT,
            RIGHT_HELD,
            RIGHT_PRESS_X,
            RIGHT_PRESS_Y,
            RIGHT_PRESSES,
            RIGHT_RELEASE_X,
            RIGHT_RELEASE_Y,
            RIGHT_RELEASES,
            lifetime,
            mx,
            my,
        );
        proof {
            lemma_button_edge_keeps(d2, MOUSE_PREV_RIGHT, RIGHT_HELD, RIGHT_PRESS_X, RIGHT_PRESS_Y, RIGHT_PRESSES,
                RIGHT_RELEASE_X, RIGHT_RELEASE_Y, RIGHT_RELEASES, lifetime, mx, my, MOUSE_PREV_LEFT);
            lemma_button_edge_keeps(d2, MOUSE_PREV_RIGHT, RIGHT_HELD, RIGHT_PRESS_X, RIGHT_PRESS_Y, RIGHT_PRESSES,
                RIGHT_RELEASE_X, RIGHT_RELEASE_Y, RIGHT_RELEASES, lifetime, mx, my, LEFT_HELD);
        }
        proof {
            self.mem.lemma_wf();
        }
        let ghost d3 = self.memory().ds;
        self.button_edge_exec(
            MOUSE_PREV_LEFT,
            LEFT_HELD,
            LEFT_PRESS_X,
            LEFT_PRESS_Y,
            LEFT_PRESSES,
            LEFT_RELEASE_X,
            LEFT_RELEASE_Y,
            LEFT_RELEASES,
            lifetime,
            mx,
            my,
        );
        proof {
            lemma_button_edge_keeps(d2, MOUSE_PREV_RIGHT, RIGHT_HELD, RIGHT_PRESS_X, RIGHT_PRESS_Y, RIGHT_PRESSES,
                RIGHT_RELEASE_X, RIGHT_RELEASE_Y, RIGHT_RELEASES, lifetime, mx, my, RIGHT_HELD);
            lemma_button_edge_keeps(d3, MOUSE_PREV_LEFT, LEFT_HELD, LEFT_PRESS_X, LEFT_PRESS_Y, LEFT_PRESSES,
                LEFT_RELEASE_X, LEFT_RELEASE_Y, LEFT_RELEASES, lifetime, mx, my, RIGHT_HELD);
            lemma_button_edge_keeps(d3, MOUSE_PREV_LEFT, LEFT_HELD, LEFT_PRESS_X, LEFT_PRESS_Y, LEFT_PRESSES,
                LEFT_RELEASE_X, LEFT_RELEASE_Y, LEFT_RELEASES, lifetime, mx, my, LEFT_HELD);
            lemma_button_edge_keeps(d2, MOUSE_PREV_RIGHT, RIGHT_HELD, RIGHT_PRESS_X, RIGHT_PRESS_Y, RIGHT_PRESSES,
                RIGHT_RELEASE_X, RIGHT_RELEASE_Y, RIGHT_RELEASES, lifetime, mx, my, CURSOR_MODE);
            lemma_button_edge_keeps(d3, MOUSE_PREV_LEFT, LEFT_HELD, LEFT_PRESS_X, LEFT_PRESS_Y, LEFT_PRESSES,
                LEFT_RELEASE_X, LEFT_RELEASE_Y, LEFT_RELEASES, lifetime, mx, my, CURSOR_MODE);
        }
        let right = self.mem.w(RIGHT_HELD);
        let left = self.mem.w(LEFT_HELD);
        proof {
            self.mem.lemma_wf();
        }
        let ghost d4 = self.memory().ds;
        self.mem.set_w(MOUSE_PREV_RIGHT, right * 2);
        proof {
            lemma_set_word_keeps(d4, MOUSE_PREV_RIGHT, (right * 2) as u16, CURSOR_MODE);
        }
        let ghost d5 = self.memory().ds;
        self.mem.set_w(MOUSE_PREV_LEFT, left * 2);
        proof {
            lemma_set_word_keeps(d5, MOUSE_PREV_LEFT, (left * 2) as u16, CURSOR_MODE);
            lemma_set_word_keeps(d5, MOUSE_PREV_LEFT, (left * 2) as u16, MOUSE_PREV_RIGHT);
            lemma_set_word_keeps(old(self).memory().ds, RIGHT_HELD, if self.host_buttons & 2 != 0 { 1u16 } else { 0u16 }, CURSOR_MODE);
            lemma_set_word_keeps(set_ds_word(old(self).memory().ds, RIGHT_HELD, if self.host_buttons & 2 != 0 { 1u16 } else { 0u16 }), LEFT_HELD, if self.host_buttons & 1 != 0 { 1u16 } else { 0u16 }, CURSOR_MODE);
        }
    }

    /// The motion half of the mouse handler.
    #[verifier::rlimit(40)]
    fn mouse_motion(&mut self)
        requires
            old(self).wf(),
            old(self).host_ok(),
        ensures
            final(self).wf(),
            final(self).memory().ds == mouse_motion_ds(old(self).memory().ds, old(self).host_mouse).0,
            ds_word(final(self).memory().ds, CURSOR_MODE) == ds_word(old(self).memory().ds, CURSOR_MODE),
            ds_word(final(self).memory().ds, MOUSE_PREV_RIGHT) == ds_word(old(self).memory().ds, MOUSE_PREV_RIGHT),
            ds_word(final(self).memory().ds, MOUSE_PREV_LEFT) == ds_word(old(self).memory().ds, MOUSE_PREV_LEFT),
            final(self).memory().heap == old(self).memory().heap,
            final(self).memory().free == old(self).memory().free,
            final(self).vram.pages == old(self).vram.pages,
            final(self).vram.dirty == (old(self).vram.dirty || mouse_motion_ds(old(self).memory().ds, old(self).host_mouse).1),
            final(self).vram.access == old(self).vram.access,
            final(self).vram.display == old(self).vram.display,
            final(self).vram.palette == old(self).vram.palette,
            final(self).vram.graphics_on == old(self).vram.graphics_on,
            final(self).rng == old(self).rng,
            final(self).host_mouse == old(self).host_mouse,
            final(self).host_buttons == old(self).host_buttons,
            final(self).quit == old(self).quit,
            final(self).last_tick == old(self).last_tick,
            final(self).instructions_since_tick == old(self).instructions_since_tick,
    {
        proof {
            self.mem.lemma_wf();
            reveal(mouse_motion_ds);
        }
        // The host reports absolute positions; feed the delta through the
        // scaling and clamping of UK2.EXE's mouse driver.
        let ox = self.mem.sw(MOUSE_X) as i32;
        let oy = self.mem.sw(MOUSE_Y) as i32;
        let dx = self.host_mouse.0 - ox;
        let dy = self.host_mouse.1 - oy;
        if dx == 0 && dy == 0 {
            return;
        }
        let mut x = ox + dx;
        let mut y = oy + dy;
        let min_x = self.mem.sw(MOUSE_MIN_X) as i32;
        let max_x = self.mem.sw(MOUSE_MAX_X) as i32;
        let min_y = self.mem.sw(MOUSE_MIN_Y) as i32;
        let max_y = self.mem.sw(MOUSE_MAX_Y) as i32;
        x = if x > min_x {
            x
        } else {
            min_x
        };
        x = if x < max_x {
            x
        } else {
            max_x
        };
        y = if y > min_y {
            y
        } else {
            min_y
        };
        y = if y < max_y {
            y
        } else {
            max_y
        };
        if x != ox || y != oy {
            self.mem.set_w(MOUSE_X, x as u16);
            self.mem.set_w(MOUSE_Y, y as u16);
            if self.mem.w(CURSOR_SHOWN) != 0 {
                self.vram.dirty = true;
            }
        }
    }

    /// `sub_2184F`: mouse event handler.
    pub fn mouse_irq(&mut self)
        requires
            old(self).wf(),
            old(self).host_ok(),
            mouse_ready(old(self).memory().ds),
        ensures
            final(self).wf(),
            final(self).host_ok(),
            mouse_ready(final(self).memory().ds),
            final(self).memory().ds == mouse_ds(old(self).memory().ds, old(self).host_pointer(), old(self).buttons()).0,
            final(self).memory().heap == old(self).memory().heap,
            final(self).memory().free == old(self).memory().free,
            final(self).screen().pages == old(self).screen().pages,
            final(self).screen().dirty == (old(self).screen().dirty || mouse_ds(
                old(self).memory().ds,
                old(self).host_pointer(),
                old(self).buttons(),
            ).1),
            final(self).seed() == old(self).seed(),
            final(self).host_pointer() == old(self).host_pointer(),
            final(self).buttons() == old(self).buttons(),
            final(self).quitting() == old(self).quitting(),
            final(self).tick() == old(self).tick(),
            final(self).since_tick() == old(self).since_tick(),
    {
        proof {
            self.mem.lemma_wf();
        }
        if self.mem.w(CURSOR_MODE) == 2 {
            return;
        }
        self.mouse_buttons();
        proof {
            self.mem.lemma_wf();
        }
        if self.mem.w(CURSOR_MODE) != 0 {
            return;
        }
        self.mouse_motion();
        proof {
            self.mem.lemma_wf();
        }
    }
}

// ---------------------------------------------------------------- host driving

/// What the host does after an interpreted instruction.
#[derive(Debug, Clone, Copy, PartialEq, Eq)]
pub enum TickStep {
    /// Service pending events and elapsed ticks.
    Poll,
    /// The emulated CPU used up its VSYNC: wait for the next tick.
    Throttle,
}

/// Reasons the engine stops.
#[derive(Debug, Clone, Copy, PartialEq, Eq)]
pub enum EngineError {
    /// The configured instruction limit was passed.
    InstructionLimit(u64),
}

/// One elapsed VSYNC: the interrupt, then a mouse interrupt.
pub open spec fn tick_once(ds: Seq<u8>, host: (i32, i32), buttons: u8) -> (Seq<u8>, bool) {
    let (d1, a) = vsync_ds(ds);
    let (d2, b) = mouse_ds(d1, host, buttons);
    (d2, a || b)
}

/// `n` elapsed VSYNCs.
pub open spec fn ticks_ds(ds: Seq<u8>, host: (i32, i32), buttons: u8, n: int) -> (Seq<u8>, bool)
    decreases n,
{
    if n <= 0 {
        (ds, false)
    } else {
        let (d, x) = ticks_ds(ds, host, buttons, n - 1);
        let (d2, y) = tick_once(d, host, buttons);
        (d2, x || y)
    }
}

/// The mouse button bit of an event's button.
pub open spec fn button_bit(left: bool) -> u8 {
    if left {
        1
    } else {
        2
    }
}

pub open spec fn buttons_after(b: u8, left: bool, pressed: bool) -> u8 {
    if pressed {
        b | button_bit(left)
    } else {
        b & !button_bit(left)
    }
}

/// An event the engine can take: pointer positions in the range the mouse
/// handler moves by.
pub open spec fn event_ok(e: HostEvent) -> bool {
    match e {
        HostEvent::MouseMove { x, y } => host_coord_ok(x) && host_coord_ok(y),
        _ => true,
    }
}

proof fn lemma_count_down_keeps(ds: Seq<u8>, off: u16, o: u16)
    requires
        ds.len() == 0x10000,
        apart(off, o),
    ensures
        count_down(ds, off).len() == 0x10000,
        ds_word(count_down(ds, off), o) == ds_word(ds, o),
{
    if ds_word(ds, off) != 0 {
        lemma_set_word_keeps(ds, off, (ds_word(ds, off) - 1) as u16, o);
    }
}

proof fn lemma_event_timer_keeps(ds: Seq<u8>, timer: u16, right: u16, left: u16, o: u16)
    requires
        ds.len() == 0x10000,
        apart(timer, o),
        apart(right, o),
        apart(left, o),
    ensures
        event_timer(ds, timer, right, left).len() == 0x10000,
        ds_word(event_timer(ds, timer, right, left), o) == ds_word(ds, o),
{
    let t = ds_word(ds, timer);
    if t != 0 {
        let d = set_ds_word(ds, timer, (t - 1) as u16);
        lemma_set_word_keeps(ds, timer, (t - 1) as u16, o);
        if t == 1 {
            lemma_set_word_keeps(d, right, 0, o);
            lemma_set_word_keeps(set_ds_word(d, right, 0), left, 0, o);
        }
    }
}

proof fn lemma_vsync_keeps_word(ds: Seq<u8>, o: u16)
    requires
        ds.len() == 0x10000,
        apart(o, TICKS),
        apart(o, TIMER_A),
        apart(o, FRAME_TIMER),
        apart(o, CURSOR_ANIM_COUNT),
        apart(o, CURSOR_FRAME),
        apart(o, PRESS_TIMER),
        apart(o, RELEASE_TIMER),
        apart(o, RIGHT_PRESSES),
        apart(o, LEFT_PRESSES),
        apart(o, RIGHT_RELEASES),
        apart(o, LEFT_RELEASES),
    ensures
        vsync_ds(ds).0.len() == 0x10000,
        ds_word(vsync_ds(ds).0, o) == ds_word(ds, o),
{
    let d1 = set_ds_word(ds, TICKS, ds_word(ds, TICKS).wrapping_add(1));
    lemma_set_word_keeps(ds, TICKS, ds_word(ds, TICKS).wrapping_add(1), o);
    let d2 = count_down(d1, TIMER_A);
    lemma_count_down_keeps(d1, TIMER_A, o);
    let d3 = count_down(d2, FRAME_TIMER);
    lemma_count_down_keeps(d2, FRAME_TIMER, o);
    let d4 = if ds_word(d3, CURSOR_ANIM_RATE) != 0 {
        let count = ds_word(d3, CURSOR_ANIM_COUNT);
        if count != 0 {
            lemma_set_word_keeps(d3, CURSOR_ANIM_COUNT, (count - 1) as u16, o);
            set_ds_word(d3, CURSOR_ANIM_COUNT, (count - 1) as u16)
        } else {
            let next = ds_word(d3, CURSOR_FRAME).wrapping_add(1);
            let frame = if ds_word(d3, CURSOR_FRAMES) < next {
                0u16
            } else {
                next
            };
            let d = set_ds_word(d3, CURSOR_FRAME, frame);
            lemma_set_word_keeps(d3, CURSOR_FRAME, frame, o);
            lemma_set_word_keeps(d, CURSOR_ANIM_COUNT, ds_word(d, CURSOR_ANIM_RATE), o);
            set_ds_word(d, CURSOR_ANIM_COUNT, ds_word(d, CURSOR_ANIM_RATE))
        }
    } else {
        d3
    };
    let d5 = event_timer(d4, PRESS_TIMER, RIGHT_PRESSES, LEFT_PRESSES);
    lemma_event_timer_keeps(d4, PRESS_TIMER, RIGHT_PRESSES, LEFT_PRESSES, o);
    lemma_event_timer_keeps(d5, RELEASE_TIMER, RIGHT_RELEASES, LEFT_RELEASES, o);
}

/// The VSYNC interrupt leaves the words the mouse handler depends on.
proof fn lemma_vsync_keeps_mouse(ds: Seq<u8>)
    requires
        ds.len() == 0x10000,
    ensures
        vsync_ds(ds).0.len() == 0x10000,
        ds_word(vsync_ds(ds).0, CURSOR_MODE) == ds_word(ds, CURSOR_MODE),
        ds_word(vsync_ds(ds).0, MOUSE_PREV_RIGHT) == ds_word(ds, MOUSE_PREV_RIGHT),
        ds_word(vsync_ds(ds).0, MOUSE_PREV_LEFT) == ds_word(ds, MOUSE_PREV_LEFT),
{
    lemma_vsync_keeps_word(ds, CURSOR_MODE);
    lemma_vsync_keeps_word(ds, MOUSE_PREV_RIGHT);
    lemma_vsync_keeps_word(ds, MOUSE_PREV_LEFT);
}

impl Engine {
    /// Takes one host event (one turn of the host's event loop).  The
    /// result is the new "pointer moved" flag, or `None` where the event
    /// leaves it as it was.
    pub fn handle_event(&mut self, event: HostEvent) -> (res: Option<bool>)
        requires
            old(self).wf(),
            old(self).host_ok(),
            mouse_ready(old(self).memory().ds),
            event_ok(event),
        ensures
            final(self).wf(),
            final(self).host_ok(),
            mouse_ready(final(self).memory().ds),
            final(self).memory().heap == old(self).memory().heap,
            final(self).memory().free == old(self).memory().free,
            final(self).screen().pages == old(self).screen().pages,
            final(self).seed() == old(self).seed(),
            final(self).tick() == old(self).tick(),
            final(self).since_tick() == old(self).since_tick(),
            match event {
                HostEvent::Quit => {
                    &&& res is None
                    &&& final(self).quitting()
                    &&& final(self).memory().ds == old(self).memory().ds
                    &&& final(self).screen() == old(self).screen()
                    &&& final(self).host_pointer() == old(self).host_pointer()
                    &&& final(self).buttons() == old(self).buttons()
                },
                HostEvent::MouseMove { x, y } => {
                    &&& res == Some(true)
                    &&& final(self).quitting() == old(self).quitting()
                    &&& final(self).memory().ds == old(self).memory().ds
                    &&& final(self).screen() == old(self).screen()
                    &&& final(self).host_pointer() == (x, y)
                    &&& final(self).buttons() == old(self).buttons()
                },
                HostEvent::MouseButton { left, pressed } => {
                    let b = buttons_after(old(self).buttons(), left, pressed);
                    &&& res == Some(false)
                    &&& final(self).quitting() == old(self).quitting()
                    &&& final(self).buttons() == b
                    &&& final(self).host_pointer() == old(self).host_pointer()
                    &&& final(self).memory().ds == mouse_ds(old(self).memory().ds, old(self).host_pointer(), b).0
                    &&& final(self).screen().dirty == (old(self).screen().dirty || mouse_ds(
                        old(self).memory().ds,
                        old(self).host_pointer(),
                        b,
                    ).1)
                },
                HostEvent::Key { code, pressed } => {
                    &&& res is None
                    &&& final(self).quitting() == old(self).quitting()
                    &&& final(self).memory().ds == keyboard_ds(old(self).memory().ds, code, pressed)
                    &&& final(self).screen() == old(self).screen()
                    &&& final(self).host_pointer() == old(self).host_pointer()
                    &&& final(self).buttons() == old(self).buttons()
                },
            },
    {
        match event {
            HostEvent::Quit => {
                self.quit = true;
                None
            },
            HostEvent::MouseMove { x, y } => {
                self.host_mouse = (x, y);
                Some(true)
            },
            HostEvent::MouseButton { left, pressed } => {
                let bit: u8 = if left {
                    1
                } else {
                    2
                };
                if pressed {
                    self.host_buttons = self.host_buttons | bit;
                } else {
                    self.host_buttons = self.host_buttons & !bit;
                }
                self.mouse_irq();
                Some(false)
            },
            HostEvent::Key { code, pressed } => {
                proof {
                    self.mem.lemma_wf();
                }
                self.keyboard_irq(code, pressed);
                proof {
                    self.mem.lemma_wf();
                    lemma_keyboard_keeps_mouse(old(self).memory().ds, code, pressed);
                }
                None
            },
        }
    }

    /// After a batch of events: a pointer move that no button event
    /// followed is delivered as one mouse interrupt.
    pub fn finish_events(&mut self, moved: bool)
        requires
            old(self).wf(),
            old(self).host_ok(),
            mouse_ready(old(self).memory().ds),
        ensures
            final(self).wf(),
            final(self).host_ok(),
            mouse_ready(final(self).memory().ds),
            final(self).memory().heap == old(self).memory().heap,
            final(self).memory().free == old(self).memory().free,
            final(self).screen().pages == old(self).screen().pages,
            final(self).memory().ds == if moved {
                mouse_ds(old(self).memory().ds, old(self).host_pointer(), old(self).buttons()).0
            } else {
                old(self).memory().ds
            },
            final(self).screen().dirty == (old(self).screen().dirty || (moved && mouse_ds(
                old(self).memory().ds,
                old(self).host_pointer(),
                old(self).buttons(),
            ).1)),
            final(self).seed() == old(self).seed(),
            final(self).host_pointer() == old(self).host_pointer(),
            final(self).buttons() == old(self).buttons(),
            final(self).quitting() == old(self).quitting(),
            final(self).tick() == old(self).tick(),
            final(self).since_tick() == old(self).since_tick(),
    {
        if moved {
            self.mouse_irq();
        }
    }

    /// Runs the VSYNC interrupts (each followed by a mouse interrupt) that
    /// elapsed up to host tick `now`.
    #[verifier::rlimit(30)]
    pub fn advance_ticks(&mut self, now: u64)
        requires
            old(self).wf(),
            old(self).host_ok(),
            mouse_ready(old(self).memory().ds),
        ensures
            final(self).wf(),
            final(self).host_ok(),
            mouse_ready(final(self).memory().ds),
            final(self).tick() == if old(self).tick() < now { now } else { old(self).tick() },
            old(self).tick() < now ==> final(self).since_tick() == 0,
            old(self).tick() >= now ==> final(self).since_tick() == old(self).since_tick(),
            final(self).memory().ds == ticks_ds(
                old(self).memory().ds,
                old(self).host_pointer(),
                old(self).buttons(),
                now - old(self).tick(),
            ).0,
            final(self).screen().dirty == (old(self).screen().dirty || ticks_ds(
                old(self).memory().ds,
                old(self).host_pointer(),
                old(self).buttons(),
                now - old(self).tick(),
            ).1),
            final(self).screen().pages == old(self).screen().pages,
            final(self).memory().heap == old(self).memory().heap,
            final(self).memory().free == old(self).memory().free,
            final(self).seed() == old(self).seed(),
            final(self).host_pointer() == old(self).host_pointer(),
            final(self).buttons() == old(self).buttons(),
            final(self).quitting() == old(self).quitting(),
    {
        let start = self.last_tick;
        while self.last_tick < now
            invariant
                self.wf(),
                self.host_ok(),
                mouse_ready(self.memory().ds),
                start == old(self).tick(),
                start <= self.last_tick,
                self.last_tick <= now || self.last_tick == start,
                self.last_tick > start ==> self.instructions_since_tick == 0,
                self.last_tick == start ==> self.instructions_since_tick == old(self).since_tick(),
                self.memory().ds == ticks_ds(
                    old(self).memory().ds,
                    old(self).host_pointer(),
                    old(self).buttons(),
                    self.last_tick - start,
                ).0,
                self.screen().dirty == (old(self).screen().dirty || ticks_ds(
                    old(self).memory().ds,
                    old(self).host_pointer(),
                    old(self).buttons(),
                    self.last_tick - start,
                ).1),
                self.screen().pages == old(self).screen().pages,
                self.memory().heap == old(self).memory().heap,
                self.memory().free == old(self).memory().free,
                self.seed() == old(self).seed(),
                self.host_pointer() == old(self).host_pointer(),
                self.buttons() == old(self).buttons(),
                self.quitting() == old(self).quitting(),
            decreases now - self.last_tick,
        {
            self.last_tick = self.last_tick + 1;
            self.instructions_since_tick = 0;
            proof {
                self.mem.lemma_wf();
                lemma_vsync_keeps_mouse(self.memory().ds);
            }
            self.vsync_irq();
            self.mouse_irq();
        }
    }

    /// Called once per interpreted MES instruction; counts it against the
    /// limit and throttles the emulated CPU to a plausible PC-98 speed.
    pub fn instruction_tick(&mut self) -> (res: Result<TickStep, EngineError>)
        requires
            old(self).instructions() < u64::MAX,
            old(self).since_tick() < u32::MAX,
        ensures
            final(self).instructions() == old(self).instructions() + 1,
            final(self).memory() == old(self).memory(),
            final(self).screen() == old(self).screen(),
            match old(self).instruction_limit() {
                Some(limit) if old(self).instructions() + 1 > limit => res == Err::<TickStep, EngineError>(
                    EngineError::InstructionLimit(limit),
                ) && final(self).since_tick() == old(self).since_tick(),
                _ => final(self).since_tick() == old(self).since_tick() + 1 && res == Ok::<TickStep, EngineError>(
                    if old(self).since_tick() + 1 >= INSTRUCTIONS_PER_TICK { TickStep::Throttle } else { TickStep::Poll },
                ),
            },
    {
        self.instruction_count = self.instruction_count + 1;
        if let Some(limit) = self.max_instructions {
            if self.instruction_count > limit {
                return Err(EngineError::InstructionLimit(limit));
            }
        }
        self.instructions_since_tick = self.instructions_since_tick + 1;
        if self.instructions_since_tick >= INSTRUCTIONS_PER_TICK {
            Ok(TickStep::Throttle)
        } else {
            Ok(TickStep::Poll)
        }
    }

    /// The host asked the engine to stop.
    pub fn quit_requested(&self) -> (res: bool)
        ensures
            res == self.quitting(),
    {
        self.quit
    }

    /// The last VSYNC tick the engine has run.
    pub fn last_tick(&self) -> (res: u64)
        ensures
            res == self.tick(),
    {
        self.last_tick
    }
}

/// The keyboard handler leaves the words the mouse handler depends on.
proof fn lemma_keyboard_keeps_mouse(ds: Seq<u8>, code: u8, pressed: bool)
    requires
        ds.len() == 0x10000,
    ensures
        keyboard_ds(ds, code, pressed).len() == 0x10000,
        ds_word(keyboard_ds(ds, code, pressed), CURSOR_MODE) == ds_word(ds, CURSOR_MODE),
        ds_word(keyboard_ds(ds, code, pressed), MOUSE_PREV_RIGHT) == ds_word(ds, MOUSE_PREV_RIGHT),
        ds_word(keyboard_ds(ds, code, pressed), MOUSE_PREV_LEFT) == ds_word(ds, MOUSE_PREV_LEFT),
{
    if code < 0x80 {
        let d1 = ds.update(KEY_TABLE + code, if pressed { 1u8 } else { 0u8 });
        let d2 = if key_down(d1, SCAN_SHIFT) && key_down(d1, SCAN_GRPH) && key_down(d1, SCAN_CTRL) {
            set_ds_word(d1, ABORT, 1)
        } else {
            d1
        };
        let r = release_gated(d2);
        assert forall|i: int| 0 <= i < KEY_TABLE implies r[i] == d2[i] by {
            assert(!(exists|k: int| 0 <= k < 12 && i == KEY_TABLE + gated_keys()[k]));
        }
    }
}

} // verus!
