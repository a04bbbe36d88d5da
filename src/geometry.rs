use vstd::prelude::*;

verus! {

/// Channels per pixel: red, green, blue and alpha.
pub const CHANNEL_COUNT: usize = 4;

/// `s` is the integer square root of `n`.
pub open spec fn is_floor_sqrt(n: nat, s: nat) -> bool {
    s * s <= n < (s + 1) * (s + 1)
}

/// The smallest integer whose square is at least `n`, given `s`, the floor of
/// the square root of `n`.
pub open spec fn ceil_sqrt_from(n: nat, s: nat) -> nat {
    if s * s == n {
        s
    } else {
        s + 1
    }
}

/// The search for a grid of `n` cells: from `width` by `height`, shrink the
/// height while the grid is too large and widen it while it is too small,
/// until it holds exactly `n` cells.
pub open spec fn grid_search(n: nat, width: nat, height: nat) -> (nat, nat)
    decreases n + height - width,
    when 1 <= width <= n && 1 <= height
{
    if width * height == n {
        (width, height)
    } else if width * height > n {
        grid_search(n, width, (height - 1) as nat)
    } else {
        grid_search(n, width + 1, height)
    }
}

/// The grid that the search yields for `n` cells, starting from the floor and
/// the ceiling of the square root of `n`.
pub open spec fn grid_for(n: nat) -> (nat, nat) {
    let s = choose|s: nat| is_floor_sqrt(n, s);
    grid_search(n, s, ceil_sqrt_from(n, s))
}

/// The integer square root.
pub fn floor_sqrt(n: usize) -> (r: usize)
    ensures
        is_floor_sqrt(n as nat, r as nat),
{
    let m: u64 = n as u64;
    let mut lo: u64 = 0;
    let mut hi: u64 = if m < 0xFFFF_FFFF { m + 1 } else { 0x1_0000_0000 };
    proof {
        if hi == 0x1_0000_0000u64 {
            assert(0x1_0000_0000nat * 0x1_0000_0000nat > u64::MAX) by (nonlinear_arith);
        } else {
            assert((m + 1) * (m + 1) > m) by (nonlinear_arith);
        }
    }
    while lo + 1 < hi
        invariant
            lo < hi <= 0x1_0000_0000,
            lo <= m,
            lo * lo <= m,
            (hi as nat) * (hi as nat) > m,
        decreases hi - lo,
    {
        let mid: u64 = lo + (hi - lo) / 2;
        assert(mid * mid <= 0xFFFF_FFFF * 0xFFFF_FFFF) by (nonlinear_arith)
            requires
                mid <= 0xFFFF_FFFF,
        ;
        if mid * mid <= m {
            assert(mid <= m) by (nonlinear_arith)
                requires
                    mid * mid <= m,
            ;
            lo = mid;
        } else {
            hi = mid;
        }
    }
    lo as usize
}

proof fn lemma_floor_sqrt_unique(n: nat, s: nat, t: nat)
    requires
        is_floor_sqrt(n, s),
        is_floor_sqrt(n, t),
    ensures
        s == t,
{
    if s < t {
        assert((s + 1) * (s + 1) <= t * t) by (nonlinear_arith)
            requires
                s + 1 <= t,
        ;
    } else if t < s {
        assert((t + 1) * (t + 1) <= s * s) by (nonlinear_arith)
            requires
                t + 1 <= s,
        ;
    }
}

/// Width and height of the most nearly square grid that the search finds for
/// `n` cells; the grid holds exactly `n` cells.
pub fn grid_dimensions(n: usize) -> (r: (usize, usize))
    requires
        n > 0,
        n <= usize::MAX / 4,
    ensures
        r.0 * r.1 == n,
        r.0 >= 1 && r.1 >= 1,
        (r.0 as nat, r.1 as nat) == grid_for(n as nat),
{
    let s = floor_sqrt(n);
    proof {
        assert(s >= 1) by (nonlinear_arith)
            requires
                n < (s + 1) * (s + 1),
                n > 0,
        ;
        assert(s <= n) by (nonlinear_arith)
            requires
                s * s <= n,
                s >= 1,
        ;
    }
    let mut width: usize = s;
    let mut height: usize = if s * s == n { s } else { s + 1 };
    proof {
        assert(s * height <= n + height) by (nonlinear_arith)
            requires
                s * s <= n,
                height == s || height == s + 1,
        ;
        let t = choose|t: nat| is_floor_sqrt(n as nat, t);
        lemma_floor_sqrt_unique(n as nat, s as nat, t);
    }
    let ghost start = (width as nat, height as nat);
    while width * height != n
        invariant
            1 <= width <= n,
            1 <= height <= s + 1,
            s <= n,
            n <= usize::MAX / 4,
            width * height <= n + height,
            grid_search(n as nat, width as nat, height as nat) == grid_search(n as nat, start.0, start.1),
        decreases n + height - width,
    {
        if width * height > n {
            assert(height >= 2) by (nonlinear_arith)
                requires
                    width * height > n,
                    width <= n,
                    height >= 1,
            ;
            assert(width * (height - 1) <= n + (height - 1)) by (nonlinear_arith)
                requires
                    width * height <= n + height,
                    width >= 1,
            ;
            height = height - 1;
        } else {
            assert(width + 1 <= n) by (nonlinear_arith)
                requires
                    width * height < n,
                    height >= 1,
            ;
            assert((width + 1) * height <= n + height) by (nonlinear_arith)
                requires
                    width * height < n,
            ;
            width = width + 1;
        }
    }
    (width, height)
}

/// Width and height of the image that a vector of `length` channel values
/// describes, four channels to a pixel.
pub fn image_dimensions(length: usize) -> (r: (usize, usize))
    requires
        length > 0,
        length % CHANNEL_COUNT == 0,
    ensures
        r.0 * r.1 * CHANNEL_COUNT == length,
        (r.0 as nat, r.1 as nat) == grid_for((length / CHANNEL_COUNT) as nat),
{
    grid_dimensions(length / CHANNEL_COUNT)
}

/// A square image of side `side` comes back as `side` by `side`.
pub proof fn lemma_square_dimensions(side: nat)
    requires
        side >= 1,
    ensures
        grid_for(side * side) == (side, side),
{
    let n = side * side;
    assert((side + 1) * (side + 1) > n) by (nonlinear_arith)
        requires
            n == side * side,
    ;
    assert(is_floor_sqrt(n, side));
    let t = choose|t: nat| is_floor_sqrt(n, t);
    lemma_floor_sqrt_unique(n, side, t);
    assert(side <= n) by (nonlinear_arith)
        requires
            side >= 1,
            n == side * side,
    ;
}

} // verus!
