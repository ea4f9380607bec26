//! The machine's peripherals: countdown timers, the keypad and the
//! monochrome display.

use vstd::prelude::*;

verus! {

/// The value of a timer after one tick: one less, but never below zero.
pub open spec fn tick_value(v: u8) -> u8 {
    if v > 0 {
        (v - 1) as u8
    } else {
        0
    }
}

/// The value of a timer after `n` ticks from `v`.
pub open spec fn ticks(v: u8, n: nat) -> u8
    decreases n,
{
    if n == 0 {
        v
    } else {
        tick_value(ticks(v, (n - 1) as nat))
    }
}

/// After `n` ticks from `v` a timer reads `max(v - n, 0)`: it stops at zero
/// and never wraps.
pub proof fn lemma_ticks(v: u8, n: nat)
    ensures
        ticks(v, n) == if v >= n { v - n } else { 0 },
    decreases n,
{
    if n > 0 {
        lemma_ticks(v, (n - 1) as nat);
    }
}

/// An 8-bit countdown counter.
pub struct Timer {
    counter: u8,
}

impl View for Timer {
    type V = u8;

    closed spec fn view(&self) -> u8 {
        self.counter
    }
}

impl Default for Timer {
    fn default() -> (r: Timer)
        ensures
            r@ == 0,
    {
        Timer { counter: 0 }
    }
}

impl Timer {
    pub fn value(&self) -> (r: u8)
        ensures
            r == self@,
    {
        self.counter
    }

    pub fn reload(&mut self, v: u8)
        ensures
            final(self)@ == v,
    {
        self.counter = v;
    }

    pub fn is_active(&self) -> (r: bool)
        ensures
            r == (self@ != 0),
    {
        self.counter != 0
    }

    pub fn tick(&mut self)
        ensures
            final(self)@ == tick_value(old(self)@),
    {
        if self.is_active() {
            self.counter = self.counter - 1;
        }
    }
}

/// Key states and change flag after key `key` is set to `pressed`: the flag
/// is raised when the state differs from before.
pub open spec fn key_set(keys: Seq<bool>, dirty: bool, key: u8, pressed: bool) -> (
    Seq<bool>,
    bool,
) {
    (keys.update(key as int, pressed), dirty || keys[key as int] != pressed)
}

/// Pressing a key, reading the change flag, and pressing the same key again
/// leaves the flag down: a press of a key already down is no change.
pub proof fn lemma_repeat_press(keys: Seq<bool>, dirty: bool, key: u8)
    requires
        keys.len() == 16,
        key < 16,
    ensures
        ({
            let (keys1, _) = key_set(keys, dirty, key, true);
            let (keys2, dirty2) = key_set(keys1, false, key, true);
            !dirty2 && keys2 == keys1
        }),
{
    let (keys1, _) = key_set(keys, dirty, key, true);
    assert(keys1.update(key as int, true) =~= keys1);
}

/// Sixteen key states and a flag recording whether any of them changed since
/// the flag was last read.
pub struct Keypad {
    state: [bool; 16],
    changed: bool,
}

impl Default for Keypad {
    fn default() -> (r: Keypad)
        ensures
            r.keys() == Seq::new(16, |i: int| false),
            !r.dirty(),
    {
        let r = Keypad { state: [false; 16], changed: false };
        assert(r.keys() =~= Seq::new(16, |i: int| false));
        r
    }
}

impl Keypad {
    /// Whether each of the keys 0x0..=0xF is pressed.
    pub closed spec fn keys(&self) -> Seq<bool> {
        self.state@
    }

    /// Whether some key changed since the flag was last read.
    pub closed spec fn dirty(&self) -> bool {
        self.changed
    }

    pub proof fn lemma_keys_len(&self)
        ensures
            self.keys().len() == 16,
    {
    }

    pub fn set_state(&mut self, key: u8, pressed: bool)
        requires
            key < 16,
        ensures
            (final(self).keys(), final(self).dirty()) == key_set(
                old(self).keys(),
                old(self).dirty(),
                key,
                pressed,
            ),
    {
        if self.state[key as usize] != pressed {
            self.changed = true;
        }
        self.state[key as usize] = pressed;
    }

    pub fn get_state(&self, key: u8) -> (r: bool)
        requires
            key < 16,
        ensures
            r == self.keys()[key as int],
    {
        self.state[key as usize]
    }

    /// Reports whether some key changed since the last call, and clears the flag.
    pub fn has_changed(&mut self) -> (r: bool)
        ensures
            r == old(self).dirty(),
            !final(self).dirty(),
            final(self).keys() == old(self).keys(),
    {
        let changed = self.changed;
        self.changed = false;
        changed
    }
}

/// Where pixel (x, y) lives in a row-major grid of `w` by `h` pixels, with
/// both coordinates taken modulo the grid's size.
pub open spec fn pixel_index(w: nat, h: nat, x: int, y: int) -> int {
    (y % (h as int)) * (w as int) + x % (w as int)
}

pub proof fn lemma_pixel_index_bound(w: nat, h: nat, x: int, y: int)
    requires
        w > 0,
        h > 0,
    ensures
        0 <= pixel_index(w, h, x, y) < w * h,
{
    let yy = y % (h as int);
    let xx = x % (w as int);
    assert(0 <= yy < h);
    assert(0 <= xx < w);
    assert(yy * (w as int) + xx < (w as int) * (h as int)) by (nonlinear_arith)
        requires
            0 <= yy < h,
            0 <= xx < w,
    ;
    assert(0 <= yy * (w as int)) by (nonlinear_arith)
        requires
            0 <= yy,
            0 <= w,
    ;
}

/// A monochrome framebuffer drawn by XOR.
pub struct VPU {
    data: Vec<bool>,
    w: usize,
    h: usize,
}

impl View for VPU {
    type V = Seq<bool>;

    /// The pixels, row by row.
    closed spec fn view(&self) -> Seq<bool> {
        self.data@
    }
}

impl VPU {
    pub closed spec fn width(&self) -> nat {
        self.w as nat
    }

    pub closed spec fn height(&self) -> nat {
        self.h as nat
    }

    pub open spec fn wf(&self) -> bool {
        &&& self.width() * self.height() <= usize::MAX
        &&& self@.len() == self.width() * self.height()
    }

    pub fn new(w: usize, h: usize) -> (r: VPU)
        requires
            w * h <= usize::MAX,
        ensures
            r.wf(),
            r.width() == w,
            r.height() == h,
            r@ == Seq::new((w * h) as nat, |i: int| false),
    {
        let data = blank(w * h);
        VPU { data, w, h }
    }

    pub fn get_data(&self) -> (r: &[bool])
        ensures
            r@ == self@,
    {
        self.data.as_slice()
    }

    pub fn size(&self) -> (r: (usize, usize))
        ensures
            r.0 == self.width(),
            r.1 == self.height(),
    {
        (self.w, self.h)
    }

    pub fn clear(&mut self)
        requires
            old(self).wf(),
        ensures
            final(self).wf(),
            final(self).width() == old(self).width(),
            final(self).height() == old(self).height(),
            final(self)@ == Seq::new(old(self)@.len(), |i: int| false),
    {
        self.data = blank(self.w * self.h);
    }

    pub fn read(&self, c: (u16, u16)) -> (r: bool)
        requires
            self.wf(),
            self.width() > 0,
            self.height() > 0,
        ensures
            r == self@[pixel_index(self.width(), self.height(), c.0 as int, c.1 as int)],
    {
        self.data[self.idx(c)]
    }

    /// XORs `v` into pixel `c`; returns whether a lit pixel went dark.
    pub fn write(&mut self, c: (u16, u16), v: bool) -> (r: bool)
        requires
            old(self).wf(),
            old(self).width() > 0,
            old(self).height() > 0,
        ensures
            final(self).wf(),
            final(self).width() == old(self).width(),
            final(self).height() == old(self).height(),
            ({
                let i = pixel_index(old(self).width(), old(self).height(), c.0 as int, c.1 as int);
                &&& r == (old(self)@[i] && v)
                &&& final(self)@ == old(self)@.update(i, old(self)@[i] != v)
            }),
    {
        let i = self.idx(c);
        let r = self.data[i] && v;
        let p = self.data[i] != v;
        self.data[i] = p;
        r
    }

    fn idx(&self, c: (u16, u16)) -> (r: usize)
        requires
            self.wf(),
            self.width() > 0,
            self.height() > 0,
        ensures
            r == pixel_index(self.width(), self.height(), c.0 as int, c.1 as int),
            r < self@.len(),
    {
        let yy = c.1 as usize % self.h;
        let xx = c.0 as usize % self.w;
        proof {
            lemma_pixel_index_bound(self.width(), self.height(), c.0 as int, c.1 as int);
        }
        yy * self.w + xx
    }
}

fn blank(n: usize) -> (r: Vec<bool>)
    ensures
        r@ == Seq::new(n as nat, |i: int| false),
{
    let mut v: Vec<bool> = Vec::with_capacity(n);
    let mut i: usize = 0;
    while i < n
        invariant
            i <= n,
            v@ == Seq::new(i as nat, |k: int| false),
        decreases n - i,
    {
        v.push(false);
        i = i + 1;
        assert(v@ =~= Seq::new(i as nat, |k: int| false));
    }
    v
}

} // verus!
