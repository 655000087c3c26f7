use vstd::prelude::*;

verus! {

/// The turn after `steps` quarter turns clockwise and one more.
pub open spec fn spec_rotate_cw(steps: int) -> int {
    (steps + 1) % 4
}

/// Whether a view turned by `steps` quarter turns shows the image on its side.
pub open spec fn spec_is_sideways(steps: int) -> bool {
    steps % 2 != 0
}

/// The bounding box of an image of `width` by `height` pixels once turned by
/// `steps` quarter turns: width and height swap on an odd number of turns.
pub open spec fn spec_effective_size(width: int, height: int, steps: int) -> (int, int) {
    if spec_is_sideways(steps) {
        (height, width)
    } else {
        (width, height)
    }
}

/// The vector `(dx, dy)` (screen axes, `y` pointing down) turned clockwise by
/// `steps` quarter turns.
pub open spec fn spec_rotate_vec(dx: int, dy: int, steps: int) -> (int, int) {
    if steps % 4 == 0 {
        (dx, dy)
    } else if steps % 4 == 1 {
        (-dy, dx)
    } else if steps % 4 == 2 {
        (-dx, -dy)
    } else {
        (dy, -dx)
    }
}

/// The quarter-turn orientation of the view.
#[derive(Clone, Copy, Debug, PartialEq, Eq, Structural)]
pub struct Rotation {
    steps: u8,
}

impl Rotation {
    pub closed spec fn view_steps(&self) -> int {
        self.steps as int
    }

    pub open spec fn wf(&self) -> bool {
        0 <= self.view_steps() < 4
    }

    /// The upright orientation.
    pub fn new() -> (r: Rotation)
        ensures
            r.wf(),
            r.view_steps() == 0,
    {
        Rotation { steps: 0 }
    }

    /// Quarter turns clockwise from upright, in `0 .. 4`.
    pub fn steps(&self) -> (r: u8)
        requires
            self.wf(),
        ensures
            r == self.view_steps(),
            r < 4,
    {
        self.steps
    }

    /// Turns the view a quarter turn clockwise.
    pub fn rotate_cw(&mut self)
        requires
            old(self).wf(),
        ensures
            final(self).wf(),
            final(self).view_steps() == spec_rotate_cw(old(self).view_steps()),
    {
        self.steps = (self.steps + 1) % 4;
    }

    /// Whether the image shows on its side (a quarter or three quarters turn).
    pub fn is_sideways(&self) -> (r: bool)
        requires
            self.wf(),
        ensures
            r == spec_is_sideways(self.view_steps()),
    {
        self.steps % 2 != 0
    }

    /// The bounding box of a `width` by `height` image in this orientation.
    pub fn effective_size(&self, width: u32, height: u32) -> (r: (u32, u32))
        requires
            self.wf(),
        ensures
            (r.0 as int, r.1 as int) == spec_effective_size(width as int, height as int, self.view_steps()),
    {
        if self.is_sideways() {
            (height, width)
        } else {
            (width, height)
        }
    }

    /// Turns the vector `(dx, dy)` by this orientation.
    pub fn rotate_vec(&self, dx: i64, dy: i64) -> (r: (i64, i64))
        requires
            self.wf(),
            dx > i64::MIN,
            dy > i64::MIN,
        ensures
            (r.0 as int, r.1 as int) == spec_rotate_vec(dx as int, dy as int, self.view_steps()),
    {
        if self.steps == 0 {
            (dx, dy)
        } else if self.steps == 1 {
            (-dy, dx)
        } else if self.steps == 2 {
            (-dx, -dy)
        } else {
            (dy, -dx)
        }
    }
}

/// Four quarter turns clockwise bring any orientation back to itself, and
/// with it the bounding box and the direction of every vector.
pub proof fn lemma_four_turns_identity(steps: int, width: int, height: int, dx: int, dy: int)
    requires
        0 <= steps < 4,
    ensures
        spec_rotate_cw(spec_rotate_cw(spec_rotate_cw(spec_rotate_cw(steps)))) == steps,
        spec_effective_size(width, height, spec_rotate_cw(spec_rotate_cw(spec_rotate_cw(spec_rotate_cw(steps)))))
            == spec_effective_size(width, height, steps),
        spec_rotate_vec(dx, dy, spec_rotate_cw(spec_rotate_cw(spec_rotate_cw(spec_rotate_cw(steps)))))
            == spec_rotate_vec(dx, dy, steps),
{
}

/// The scale at which an image whose turned bounding box is `eff_w` by `eff_h`
/// fits a `disp_w` by `disp_h` display, as the fraction `(num, den)`: the
/// smaller of `disp_w / eff_w` and `disp_h / eff_h`.
pub open spec fn spec_fit_ratio(disp_w: int, disp_h: int, eff_w: int, eff_h: int) -> (int, int) {
    if disp_w * eff_h <= disp_h * eff_w {
        (disp_w, eff_w)
    } else {
        (disp_h, eff_h)
    }
}

/// The fit-to-window scale, as the fraction `num / den` with `den > 0`: the
/// smaller of `disp_w / eff_w` and `disp_h / eff_h`.
pub fn fit_ratio(disp_w: u32, disp_h: u32, eff_w: u32, eff_h: u32) -> (r: (u32, u32))
    requires
        eff_w > 0,
        eff_h > 0,
    ensures
        (r.0 as int, r.1 as int) == spec_fit_ratio(disp_w as int, disp_h as int, eff_w as int, eff_h as int),
        r.1 > 0,
{
    proof {
        assert(disp_w * eff_h <= 0xffff_ffffu64 * 0xffff_ffffu64) by (nonlinear_arith)
            requires disp_w <= 0xffff_ffffu64, eff_h <= 0xffff_ffffu64;
        assert(disp_h * eff_w <= 0xffff_ffffu64 * 0xffff_ffffu64) by (nonlinear_arith)
            requires disp_h <= 0xffff_ffffu64, eff_w <= 0xffff_ffffu64;
    }
    let a: u64 = (disp_w as u64) * (eff_h as u64);
    let b: u64 = (disp_h as u64) * (eff_w as u64);
    if a <= b {
        (disp_w, eff_w)
    } else {
        (disp_h, eff_h)
    }
}

/// At the fit scale the turned image fits the display on both axes, and
/// fills it exactly on at least one.
pub proof fn lemma_fit_ratio_fits(disp_w: int, disp_h: int, eff_w: int, eff_h: int)
    requires
        disp_w >= 0,
        disp_h >= 0,
        eff_w > 0,
        eff_h > 0,
    ensures
        ({
            let (num, den) = spec_fit_ratio(disp_w, disp_h, eff_w, eff_h);
            &&& den > 0
            &&& num * eff_w <= disp_w * den
            &&& num * eff_h <= disp_h * den
            &&& (num * eff_w == disp_w * den || num * eff_h == disp_h * den)
        }),
{
    if disp_w * eff_h <= disp_h * eff_w {
        assert(disp_w * eff_w == disp_w * eff_w);
        assert(disp_w * eff_h <= disp_h * eff_w);
    } else {
        assert(disp_h * eff_w < disp_w * eff_h);
        assert(disp_h * eff_w == eff_w * disp_h) by (nonlinear_arith);
        assert(disp_w * eff_h == eff_h * disp_w) by (nonlinear_arith);
    }
}

} // verus!
