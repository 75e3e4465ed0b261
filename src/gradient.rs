use vstd::prelude::*;

verus! {

/// An RGB color, one byte per channel.
pub type Rgb = [u8; 3];

/// Why a set of stops cannot form a gradient.
#[derive(Debug, PartialEq, Eq, Structural)]
pub enum GradientError {
    /// Fewer than two stops, positions not strictly increasing, or a
    /// repeating gradient whose last stop does not lie above zero.
    InvalidGradient,
}

/// A piecewise-linear color ramp over integer positions.
///
/// Positions are in whatever fixed-point unit the caller picks: only the
/// ratios between them matter for the interpolation.
pub struct Gradient {
    /// Whether the stops repeat endlessly with the period of the last stop.
    repeat: bool,
    /// The stops, as `(position, color)`, by strictly increasing position.
    steps: Vec<(i64, Rgb)>,
}

/// Positions strictly increase along the sequence.
pub open spec fn stops_increasing(s: Seq<(i64, Rgb)>) -> bool {
    forall|i: int, j: int| 0 <= i < j < s.len() ==> s[i].0 < s[j].0
}

/// Stops that make a usable gradient.
pub open spec fn valid_stops(s: Seq<(i64, Rgb)>, repeat: bool) -> bool {
    &&& s.len() >= 2
    &&& stops_increasing(s)
    &&& repeat ==> s.last().0 > 0
}

/// `a + t * (b - a)` with `t = num / den`, rounded toward zero.
pub open spec fn lerp_channel(a: u8, b: u8, num: int, den: int) -> int {
    (a * den + num * (b - a)) / den
}

/// The interpolated channel stays within a byte.
proof fn lemma_lerp_in_range(a: u8, b: u8, num: int, den: int)
    requires
        0 <= num < den,
    ensures
        0 <= a * den + num * (b - a),
        0 <= lerp_channel(a, b, num, den) <= 255,
{
    let v = a * den + num * (b - a);
    assert(v == a * (den - num) + b * num) by (nonlinear_arith)
        requires
            v == a * den + num * (b - a),
    ;
    assert(0 <= a * (den - num)) by (nonlinear_arith)
        requires
            0 <= a,
            num < den,
    ;
    assert(0 <= b * num) by (nonlinear_arith)
        requires
            0 <= b,
            0 <= num,
    ;
    assert(a * (den - num) + b * num <= 255 * den) by (nonlinear_arith)
        requires
            a <= 255,
            b <= 255,
            0 <= num < den,
    ;
    assert(0 <= v / den <= 255) by (nonlinear_arith)
        requires
            0 <= v <= 255 * den,
            den > 0,
    ;
}

/// One channel of the color between `a` and `b`, a fraction `num / den` of
/// the way from `a`.
fn lerp_1(a: u8, b: u8, num: i128, den: i128) -> (r: u8)
    requires
        0 <= num < den <= u64::MAX,
    ensures
        r as int == lerp_channel(a, b, num as int, den as int),
{
    proof {
        lemma_lerp_in_range(a, b, num as int, den as int);
        assert(a * den <= 255 * u64::MAX) by (nonlinear_arith)
            requires
                a <= 255,
                0 < den <= u64::MAX,
        ;
        assert(-255 * u64::MAX <= num * (b - a) <= 255 * u64::MAX) by (nonlinear_arith)
            requires
                -255 <= b - a <= 255,
                0 <= num <= u64::MAX,
        ;
    }
    let v = (a as i128) * den + num * ((b as i128) - (a as i128));
    assert(v as int == a * den + num * (b - a));
    let r = (v as u128) / (den as u128);
    assert(r as int == lerp_channel(a, b, num as int, den as int));
    r as u8
}

impl Gradient {
    /// The stops, in order.
    pub closed spec fn stops(self) -> Seq<(i64, Rgb)> {
        self.steps@
    }

    /// Whether the gradient wraps around.
    pub closed spec fn repeating(self) -> bool {
        self.repeat
    }

    pub open spec fn wf(self) -> bool {
        valid_stops(self.stops(), self.repeating())
    }

    /// The position after the cyclic wrap of a repeating gradient: the
    /// remainder by the last stop's position, in `[0, last)`.
    pub open spec fn reduced(self, p: int) -> int {
        if self.repeating() {
            p % (self.stops().last().0 as int)
        } else {
            p
        }
    }

    /// `q` lies in the segment from stop `i` up to, not including, stop `i + 1`.
    pub open spec fn in_segment(self, i: int, q: int) -> bool {
        &&& 0 <= i < self.stops().len() - 1
        &&& self.stops()[i].0 <= q < self.stops()[i + 1].0
    }

    /// Channel `c` of the color at position `p`: the end colors outside the
    /// stops, else the interpolation within the segment that holds `p`.
    pub open spec fn channel_at(self, p: int, c: int) -> int {
        let s = self.stops();
        let q = self.reduced(p);
        if q < s[0].0 {
            s[0].1@[c] as int
        } else if q >= s.last().0 {
            s.last().1@[c] as int
        } else {
            let i = choose|i: int| self.in_segment(i, q);
            lerp_channel(s[i].1@[c], s[i + 1].1@[c], q - s[i].0, s[i + 1].0 - s[i].0)
        }
    }

    /// Builds a gradient, refusing stops that cannot form one.
    pub fn new(steps: Vec<(i64, Rgb)>, repeat: bool) -> (r: Result<Self, GradientError>)
        ensures
            r is Ok <==> valid_stops(steps@, repeat),
            r matches Ok(g) ==> g.stops() == steps@ && g.repeating() == repeat && g.wf(),
    {
        let n = steps.len();
        if n < 2 {
            return Err(GradientError::InvalidGradient);
        }
        if repeat && steps[n - 1].0 <= 0 {
            return Err(GradientError::InvalidGradient);
        }
        let mut i: usize = 1;
        while i < n
            invariant
                n == steps.len(),
                1 <= i <= n,
                forall|a: int, b: int| 0 <= a < b < i ==> steps@[a].0 < steps@[b].0,
            decreases n - i,
        {
            if steps[i - 1].0 >= steps[i].0 {
                return Err(GradientError::InvalidGradient);
            }
            proof {
                assert forall|a: int, b: int| 0 <= a < b < i + 1 implies steps@[a].0
                    < steps@[b].0 by {
                    if b == i && a < i - 1 {
                        assert(steps@[a].0 < steps@[i - 1].0);
                    }
                }
            }
            i += 1;
        }
        Ok(Gradient { steps, repeat })
    }

    /// Whether the gradient wraps around.
    pub fn repeat(&self) -> (r: bool)
        ensures
            r == self.repeating(),
    {
        self.repeat
    }

    /// The color at `position`.
    pub fn get_at(&self, position: i64) -> (r: Rgb)
        requires
            self.wf(),
        ensures
            forall|c: int| 0 <= c < 3 ==> r@[c] as int == self.channel_at(position as int, c),
    {
        let n = self.steps.len();
        let ghost s = self.stops();
        let mut q = position;
        if self.repeat {
            let last = self.steps[n - 1].0;
            if position >= 0 {
                q = position % last;
            } else {
                // the remainder of -position, taken without negating i64::MIN
                let m = -(position + 1);
                let t = ((m % last) + 1) % last;
                q = if t == 0 { 0 } else { last - t };
                proof {
                    let (mi, d, p) = (m as int, last as int, position as int);
                    vstd::arithmetic::div_mod::lemma_add_mod_noop(mi, 1, d);
                    if d > 1 {
                        vstd::arithmetic::div_mod::lemma_small_mod(1, d as nat);
                    }
                    assert(-p == mi + 1);
                    assert(t == (-p) % d);
                    let k = (-p) / d;
                    vstd::arithmetic::div_mod::lemma_fundamental_div_mod(-p, d);
                    assert(-p == d * k + t);
                    if t == 0 {
                        assert(p == (-k) * d + 0) by (nonlinear_arith)
                            requires
                                -p == d * k + t,
                                t == 0,
                        ;
                        vstd::arithmetic::div_mod::lemma_fundamental_div_mod_converse(p, d, -k, 0);
                    } else {
                        assert(p == (-k - 1) * d + (d - t)) by (nonlinear_arith)
                            requires
                                -p == d * k + t,
                        ;
                        vstd::arithmetic::div_mod::lemma_fundamental_div_mod_converse(
                            p,
                            d,
                            -k - 1,
                            d - t,
                        );
                    }
                }
            }
        }
        assert(q as int == self.reduced(position as int));
        let mut i: usize = 0;
        while i < n && self.steps[i].0 <= q
            invariant
                n == s.len(),
                s == self.stops(),
                i <= n,
                forall|j: int| 0 <= j < i ==> s[j].0 <= q,
            decreases n - i,
        {
            i += 1;
        }
        let bottom: usize = if i == 0 { 0 } else { i - 1 };
        if !self.repeat && bottom == n - 1 {
            assert(q >= s.last().0);
            return self.steps[bottom].1;
        }
        if bottom == 0 && q < self.steps[0].0 {
            return self.steps[0].1;
        }
        if self.repeat {
            assert(q < s.last().0);
        }
        assert(i == bottom + 1 && i < n);
        assert(self.in_segment(bottom as int, q as int));
        assert(q >= s[0].0);
        assert(q < s.last().0);
        assert forall|k: int| #[trigger] self.in_segment(k, q as int) implies k == bottom by {
            if k < bottom {
                assert(s[k + 1].0 <= s[bottom as int].0);
            } else if k > bottom {
                assert(s[bottom + 1].0 <= s[k].0);
            }
        }
        let value_a = self.steps[bottom].1;
        let value_b = self.steps[bottom + 1].1;
        let step_a = self.steps[bottom].0 as i128;
        let step_b = self.steps[bottom + 1].0 as i128;
        let num = q as i128 - step_a;
        let den = step_b - step_a;
        [
            lerp_1(value_a[0], value_b[0], num, den),
            lerp_1(value_a[1], value_b[1], num, den),
            lerp_1(value_a[2], value_b[2], num, den),
        ]
    }
}

/// At most one segment of a gradient holds a given position.
pub proof fn lemma_segment_unique(g: Gradient, i: int, j: int, q: int)
    requires
        g.wf(),
        g.in_segment(i, q),
        g.in_segment(j, q),
    ensures
        i == j,
{
    let s = g.stops();
    if i < j {
        assert(s[i + 1].0 <= s[j].0);
    } else if j < i {
        assert(s[j + 1].0 <= s[i].0);
    }
}

/// A gradient that does not repeat gives the first stop's color at every
/// position before the first stop, and the last stop's color at every
/// position at or after the last stop.
pub proof fn lemma_clamped_ends(g: Gradient, p: int, c: int)
    requires
        g.wf(),
        !g.repeating(),
        0 <= c < 3,
    ensures
        p < g.stops()[0].0 ==> g.channel_at(p, c) == g.stops()[0].1@[c] as int,
        p >= g.stops().last().0 ==> g.channel_at(p, c) == g.stops().last().1@[c] as int,
{
    assert(g.stops()[0].0 < g.stops().last().0);
}

/// A repeating gradient gives the same color at a position and at that
/// position moved by any whole number of periods, the period being the last
/// stop's position.
pub proof fn lemma_repeat_period(g: Gradient, p: int, k: int, c: int)
    requires
        g.wf(),
        g.repeating(),
        0 <= c < 3,
    ensures
        g.channel_at(p + k * g.stops().last().0, c) == g.channel_at(p, c),
{
    let d = g.stops().last().0 as int;
    vstd::arithmetic::div_mod::lemma_mod_multiples_vanish(k, p, d);
    assert(d * k + p == p + k * d) by (nonlinear_arith);
    assert(g.reduced(p + k * d) == g.reduced(p));
}

/// A repeating gradient gives at any position, negative ones included, the
/// color at that position's remainder by the period, which lies in
/// `[0, period)`.
pub proof fn lemma_repeat_wraps_into_period(g: Gradient, p: int, c: int)
    requires
        g.wf(),
        g.repeating(),
        0 <= c < 3,
    ensures
        0 <= p % (g.stops().last().0 as int) < g.stops().last().0,
        g.channel_at(p, c) == g.channel_at(p % (g.stops().last().0 as int), c),
{
    let d = g.stops().last().0 as int;
    vstd::arithmetic::div_mod::lemma_mod_twice(p, d);
    vstd::arithmetic::div_mod::lemma_mod_bound(p, d);
}

} // verus!
