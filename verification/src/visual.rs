//! Visual-selection shapes: the rectangular span and the two circle walks
//! (for odd and even diameters) that mark pixels in a 2D bit mask.

use vstd::prelude::*;
use crate::bitmap2d::BitMap2D;

verus! {

/// The shape a visual selection takes between two corner positions.
#[derive(PartialEq, Eq, Structural, Clone, Copy, Debug)]
pub enum VisualType {
    Square,
    Circle,
}

/// The eight symmetric images of an octant point around an integer centre.
pub open spec fn odd_sym(x0: int, y0: int, a: int, b: int) -> Set<(int, int)> {
    Set::empty().insert((x0 + a, y0 + b)).insert((x0 + b, y0 + a)).insert((x0 - a, y0 + b)).insert(
        (x0 - b, y0 + a),
    ).insert((x0 - a, y0 - b)).insert((x0 - b, y0 - a)).insert((x0 + a, y0 - b)).insert(
        (x0 + b, y0 - a),
    )
}

/// The octant points visited by the odd-diameter circle walk from state
/// `(x, y, d)`: the walk plots `(x, y)` and moves right, down, or
/// diagonally, following the sign of the running decision value `d`.
pub open spec fn odd_octant(r: int, x: int, y: int, d: int) -> Set<(int, int)>
    decreases y + 2 - x,
{
    if x > y {
        Set::empty()
    } else {
        let rest = if d >= 2 * x {
            odd_octant(r, x + 1, y, d - 2 * x - 1)
        } else if d <= 2 * (r - y) {
            odd_octant(r, x, y - 1, d + 2 * y - 1)
        } else {
            odd_octant(r, x + 1, y - 1, d + 2 * (y - x - 1))
        };
        rest.insert((x, y))
    }
}

/// Every plotted point of the odd-diameter circle of radius `r` around
/// `(x0, y0)`: the symmetric images of the walked octant.
pub open spec fn odd_circle(x0: int, y0: int, r: int) -> Set<(int, int)> {
    sym_image_odd(x0, y0, odd_octant(r, 0, r, r - 1))
}

/// The union of the eight symmetric images of every point of `s`.
pub open spec fn sym_image_odd(x0: int, y0: int, s: Set<(int, int)>) -> Set<(int, int)> {
    Set::new(
        |p: (int, int)|
            exists|q: (int, int)| s.contains(q) && odd_sym(x0, y0, q.0, q.1).contains(p),
    )
}

/// Distributing the symmetric image over one inserted octant point.
proof fn lemma_sym_image_odd_insert(x0: int, y0: int, q: (int, int), s: Set<(int, int)>)
    ensures
        sym_image_odd(x0, y0, s.insert(q)) == sym_image_odd(x0, y0, s).union(
            odd_sym(x0, y0, q.0, q.1),
        ),
{
    assert forall|p: (int, int)| #[trigger] sym_image_odd(x0, y0, s.insert(q)).contains(
        p,
    ) implies sym_image_odd(x0, y0, s).union(odd_sym(x0, y0, q.0, q.1)).contains(p) by {
        let w = choose|w: (int, int)|
            s.insert(q).contains(w) && odd_sym(x0, y0, w.0, w.1).contains(p);
        if w == q {
        } else {
            assert(s.contains(w));
        }
    }
    assert forall|p: (int, int)| sym_image_odd(x0, y0, s).union(odd_sym(x0, y0, q.0, q.1)).contains(
        p,
    ) implies #[trigger] sym_image_odd(x0, y0, s.insert(q)).contains(p) by {
        if sym_image_odd(x0, y0, s).contains(p) {
            let w = choose|w: (int, int)| s.contains(w) && odd_sym(x0, y0, w.0, w.1).contains(p);
            assert(s.insert(q).contains(w) && odd_sym(x0, y0, w.0, w.1).contains(p));
        } else {
            assert(s.insert(q).contains(q) && odd_sym(x0, y0, q.0, q.1).contains(p));
        }
    }
    assert(sym_image_odd(x0, y0, s.insert(q)) =~= sym_image_odd(x0, y0, s).union(
        odd_sym(x0, y0, q.0, q.1),
    ));
}

/// The symmetric image of the empty octant is empty.
proof fn lemma_sym_image_odd_empty(x0: int, y0: int)
    ensures
        sym_image_odd(x0, y0, Set::empty()) == Set::<(int, int)>::empty(),
{
    assert(sym_image_odd(x0, y0, Set::empty()) =~= Set::<(int, int)>::empty());
}

/// Mark the odd-diameter circle of radius `r` around `c` in `set`, walking
/// one octant and mirroring each step eight ways.
#[verifier::spinoff_prover]
#[verifier::rlimit(60)]
pub fn odd_radius_andres<T: BitMap2D>(set: &mut T, c: (isize, isize), r: isize)
    requires
        r >= 0 ==> c.0 - r >= 0 && c.1 - r >= 0 && c.0 + r <= isize::MAX && c.1 + r <= isize::MAX
            && 2 * r * r + 4 * r + 4 <= isize::MAX,
    ensures
        final(set).bits() == old(set).bits().union(odd_circle(c.0 as int, c.1 as int, r as int)),
{
    let ghost old_bits = set.bits();
    let x0 = c.0;
    let y0 = c.1;
    if r < 0 {
        proof {
            assert(odd_octant(r as int, 0, r as int, r as int - 1) =~= Set::<(int, int)>::empty());
            lemma_sym_image_odd_empty(x0 as int, y0 as int);
            assert(old_bits.union(odd_circle(x0 as int, y0 as int, r as int)) =~= old_bits);
        }
        return ;
    }
    let mut x: isize = 0;
    let mut y: isize = r;
    let mut d: isize = r - 1;
    while x <= y
        invariant
            0 <= x,
            x <= y + 2,
            y <= r,
            d == r * r + r - 1 - x * x - y * y,
            r >= 0,
            c.0 - r >= 0 && c.1 - r >= 0 && c.0 + r <= isize::MAX && c.1 + r <= isize::MAX && 2 * r
                * r + 4 * r + 4 <= isize::MAX,
            x0 == c.0 && y0 == c.1,
            set.bits().union(sym_image_odd(x0 as int, y0 as int, odd_octant(r as int, x as int, y as int, d as int)))
                == old_bits.union(odd_circle(x0 as int, y0 as int, r as int)),
            old_bits.subset_of(set.bits()),
        decreases y + 2 - x,
    {
        proof {
            assert(x * x <= y * y && y * y <= r * r && x * x >= 0 && y * y >= 0) by (nonlinear_arith)
                requires
                    0 <= x <= y <= r,
            ;
        }
        let ghost bits_at_entry = set.bits();
        set.set_bit((x0 + x) as usize, (y0 + y) as usize);
        set.set_bit((x0 + y) as usize, (y0 + x) as usize);
        set.set_bit((x0 - x) as usize, (y0 + y) as usize);
        set.set_bit((x0 - y) as usize, (y0 + x) as usize);
        set.set_bit((x0 - x) as usize, (y0 - y) as usize);
        set.set_bit((x0 - y) as usize, (y0 - x) as usize);
        set.set_bit((x0 + x) as usize, (y0 - y) as usize);
        set.set_bit((x0 + y) as usize, (y0 - x) as usize);
        proof {
            assert(set.bits() =~= bits_at_entry.union(
                odd_sym(x0 as int, y0 as int, x as int, y as int),
            ));
        }
        let ghost oct_here = odd_octant(r as int, x as int, y as int, d as int);
        if d >= 2 * x {
            proof {
                let oct_next = odd_octant(r as int, x as int + 1, y as int, d as int - 2 * x - 1);
                assert(oct_here == oct_next.insert((x as int, y as int)));
                lemma_sym_image_odd_insert(x0 as int, y0 as int, (x as int, y as int), oct_next);
                assert(set.bits().union(sym_image_odd(x0 as int, y0 as int, oct_next))
                    =~= bits_at_entry.union(sym_image_odd(x0 as int, y0 as int, oct_here)));
            }
            proof {
                assert(d - 2 * x - 1 == r * r + r - 1 - (x + 1) * (x + 1) - y * y && -(2 * r * r + 4
                    * r + 4) <= d - 2 * x - 1 <= 2 * r * r + 4 * r + 4 && -(2 * r * r + 4 * r + 4) <= d
                    - 2 * x <= 2 * r * r + 4 * r + 4 && 0 <= 2 * x <= 2 * r * r + 4 * r + 4)
                    by (nonlinear_arith)
                    requires
                        d == r * r + r - 1 - x * x - y * y,
                        0 <= x <= y <= r,
                ;
                assert(isize::MIN <= 2 * x <= isize::MAX);
                assert(isize::MIN <= d - 2 * x <= isize::MAX);
                assert(isize::MIN <= d - 2 * x - 1 <= isize::MAX);
            }
            d = d - 2 * x - 1;
            x = x + 1;
        } else if d <= 2 * (r - y) {
            proof {
                let oct_next = odd_octant(r as int, x as int, y as int - 1, d as int + 2 * y - 1);
                assert(oct_here == oct_next.insert((x as int, y as int)));
                lemma_sym_image_odd_insert(x0 as int, y0 as int, (x as int, y as int), oct_next);
                assert(set.bits().union(sym_image_odd(x0 as int, y0 as int, oct_next))
                    =~= bits_at_entry.union(sym_image_odd(x0 as int, y0 as int, oct_here)));
            }
            proof {
                assert(d + 2 * y - 1 == r * r + r - 1 - x * x - (y - 1) * (y - 1) && -(2 * r * r + 4
                    * r + 4) <= d + 2 * y - 1 <= 2 * r * r + 4 * r + 4 && -(2 * r * r + 4 * r + 4) <= d
                    + 2 * y <= 2 * r * r + 4 * r + 4 && 0 <= 2 * y <= 2 * r * r + 4 * r + 4)
                    by (nonlinear_arith)
                    requires
                        d == r * r + r - 1 - x * x - y * y,
                        0 <= x <= y <= r,
                ;
                assert(isize::MIN <= 2 * y <= isize::MAX);
                assert(isize::MIN <= d + 2 * y <= isize::MAX);
                assert(isize::MIN <= d + 2 * y - 1 <= isize::MAX);
            }
            d = d + 2 * y - 1;
            y = y - 1;
        } else {
            proof {
                let oct_next = odd_octant(
                    r as int,
                    x as int + 1,
                    y as int - 1,
                    d as int + 2 * (y - x - 1),
                );
                assert(oct_here == oct_next.insert((x as int, y as int)));
                lemma_sym_image_odd_insert(x0 as int, y0 as int, (x as int, y as int), oct_next);
                assert(set.bits().union(sym_image_odd(x0 as int, y0 as int, oct_next))
                    =~= bits_at_entry.union(sym_image_odd(x0 as int, y0 as int, oct_here)));
            }
            proof {
                assert(d + 2 * (y - x - 1) == r * r + r - 1 - (x + 1) * (x + 1) - (y - 1) * (y - 1)
                    && -(2 * r * r + 4 * r + 4) <= d + 2 * (y - x - 1) <= 2 * r * r + 4 * r + 4
                    && -(2 * r * r + 4 * r + 4) <= 2 * (y - x - 1) <= 2 * r * r + 4 * r + 4)
                    by (nonlinear_arith)
                    requires
                        d == r * r + r - 1 - x * x - y * y,
                        0 <= x <= y <= r,
                ;
                assert(isize::MIN <= y - x - 1 <= isize::MAX);
                assert(isize::MIN <= 2 * (y - x - 1) <= isize::MAX);
                assert(isize::MIN <= d + 2 * (y - x - 1) <= isize::MAX);
            }
            d = d + 2 * (y - x - 1);
            y = y - 1;
            x = x + 1;
        }
    }
    proof {
        assert(odd_octant(r as int, x as int, y as int, d as int) =~= Set::<(int, int)>::empty());
        lemma_sym_image_odd_empty(x0 as int, y0 as int);
        assert(set.bits() =~= set.bits().union(
            sym_image_odd(
                x0 as int,
                y0 as int,
                odd_octant(r as int, x as int, y as int, d as int),
            ),
        ));
    }
}

/// The ring test of the even-diameter walk: whether `(a, b)` lies strictly
/// between the circles of radius `k - 1/2` and `k + 1/2`, stated over
/// integers.
pub open spec fn even_test(k: int, a: int, b: int) -> bool {
    k * k - k < a * a + b * b <= k * k + k
}

/// The eight symmetric images of an octant point of the even-diameter walk,
/// whose centre sits between pixels.
pub open spec fn even_sym(x0: int, y0: int, a: int, b: int) -> Set<(int, int)> {
    Set::empty().insert((x0 + a, y0 + b)).insert((x0 + b, y0 + a)).insert(
        (x0 - a + 1, y0 + b),
    ).insert((x0 - b + 1, y0 + a)).insert((x0 - a + 1, y0 - b + 1)).insert(
        (x0 - b + 1, y0 - a + 1),
    ).insert((x0 + a, y0 - b + 1)).insert((x0 + b, y0 - a + 1))
}

/// The octant points visited by the even-diameter circle walk from
/// `(x, y)`: the walk plots `(x, y)` and then moves to whichever neighbour
/// passes the ring test, preferring right over down over diagonal.
pub open spec fn even_octant(k: int, x: int, y: int) -> Set<(int, int)>
    decreases y + 2 - x,
{
    if x > y {
        Set::empty()
    } else {
        let rest = if even_test(k, x + 1, y) {
            even_octant(k, x + 1, y)
        } else if even_test(k, x, y - 1) {
            even_octant(k, x, y - 1)
        } else {
            even_octant(k, x + 1, y - 1)
        };
        rest.insert((x, y))
    }
}

/// The union of the eight even-walk images of every point of `s`.
pub open spec fn sym_image_even(x0: int, y0: int, s: Set<(int, int)>) -> Set<(int, int)> {
    Set::new(
        |p: (int, int)|
            exists|q: (int, int)| s.contains(q) && even_sym(x0, y0, q.0, q.1).contains(p),
    )
}

/// Every plotted point of the even-diameter circle of half-diameter `k`
/// around `(x0, y0)`.
pub open spec fn even_circle(x0: int, y0: int, k: int) -> Set<(int, int)> {
    sym_image_even(x0, y0, even_octant(k, 1, k))
}

/// Distributing the even-walk image over one inserted octant point.
proof fn lemma_sym_image_even_insert(x0: int, y0: int, q: (int, int), s: Set<(int, int)>)
    ensures
        sym_image_even(x0, y0, s.insert(q)) == sym_image_even(x0, y0, s).union(
            even_sym(x0, y0, q.0, q.1),
        ),
{
    assert forall|p: (int, int)| #[trigger] sym_image_even(x0, y0, s.insert(q)).contains(
        p,
    ) implies sym_image_even(x0, y0, s).union(even_sym(x0, y0, q.0, q.1)).contains(p) by {
        let w = choose|w: (int, int)|
            s.insert(q).contains(w) && even_sym(x0, y0, w.0, w.1).contains(p);
        if w == q {
        } else {
            assert(s.contains(w));
        }
    }
    assert forall|p: (int, int)| sym_image_even(x0, y0, s).union(
        even_sym(x0, y0, q.0, q.1),
    ).contains(p) implies #[trigger] sym_image_even(x0, y0, s.insert(q)).contains(p) by {
        if sym_image_even(x0, y0, s).contains(p) {
            let w = choose|w: (int, int)| s.contains(w) && even_sym(x0, y0, w.0, w.1).contains(p);
            assert(s.insert(q).contains(w) && even_sym(x0, y0, w.0, w.1).contains(p));
        } else {
            assert(s.insert(q).contains(q) && even_sym(x0, y0, q.0, q.1).contains(p));
        }
    }
    assert(sym_image_even(x0, y0, s.insert(q)) =~= sym_image_even(x0, y0, s).union(
        even_sym(x0, y0, q.0, q.1),
    ));
}

/// The even-walk image of the empty octant is empty.
proof fn lemma_sym_image_even_empty(x0: int, y0: int)
    ensures
        sym_image_even(x0, y0, Set::empty()) == Set::<(int, int)>::empty(),
{
    assert(sym_image_even(x0, y0, Set::empty()) =~= Set::<(int, int)>::empty());
}

/// Mark the even-diameter circle of half-diameter `k` around `c` in `set`.
/// The walked arc sits half a pixel off centre, so the mirrored images are
/// shifted by one on their negative sides.
pub fn even_radius_andres<T: BitMap2D>(set: &mut T, c: (isize, isize), k: isize)
    requires
        k >= 1 ==> c.0 - k + 1 >= 0 && c.1 - k + 1 >= 0 && c.0 + k <= isize::MAX && c.1 + k
            <= isize::MAX && 2 * k * k + 4 * k + 4 <= isize::MAX,
    ensures
        final(set).bits() == old(set).bits().union(even_circle(c.0 as int, c.1 as int, k as int)),
{
    let ghost old_bits = set.bits();
    let x0 = c.0;
    let y0 = c.1;
    if k < 1 {
        proof {
            assert(even_octant(k as int, 1, k as int) =~= Set::<(int, int)>::empty());
            lemma_sym_image_even_empty(x0 as int, y0 as int);
            assert(old_bits.union(even_circle(x0 as int, y0 as int, k as int)) =~= old_bits);
        }
        return ;
    }
    let mut x: isize = 1;
    let mut y: isize = k;
    while x <= y
        invariant
            1 <= x,
            y <= k,
            k >= 1,
            c.0 - k + 1 >= 0 && c.1 - k + 1 >= 0 && c.0 + k <= isize::MAX && c.1 + k
                <= isize::MAX && 2 * k * k + 4 * k + 4 <= isize::MAX,
            x0 == c.0 && y0 == c.1,
            set.bits().union(
                sym_image_even(x0 as int, y0 as int, even_octant(k as int, x as int, y as int)),
            ) == old_bits.union(even_circle(x0 as int, y0 as int, k as int)),
            old_bits.subset_of(set.bits()),
        decreases y + 2 - x,
    {
        proof {
            assert((x + 1) * (x + 1) + y * y <= 2 * k * k + 4 * k + 4 && x * x + (y - 1) * (y - 1)
                <= 2 * k * k + 4 * k + 4 && x * x >= 0 && y * y >= 0 && (y - 1) * (y - 1) >= 0 && (
            x + 1) * (x + 1) >= 0 && k * k >= 0 && k * k + k <= 2 * k * k + 4 * k + 4 && k * k - k >= -(2 * k
                * k + 4 * k + 4))
                by (nonlinear_arith)
                requires
                    1 <= x <= y <= k,
            ;
        }
        let ghost bits_at_entry = set.bits();
        set.set_bit((x0 + x) as usize, (y0 + y) as usize);
        set.set_bit((x0 + y) as usize, (y0 + x) as usize);
        set.set_bit((x0 - x + 1) as usize, (y0 + y) as usize);
        set.set_bit((x0 - y + 1) as usize, (y0 + x) as usize);
        set.set_bit((x0 - x + 1) as usize, (y0 - y + 1) as usize);
        set.set_bit((x0 - y + 1) as usize, (y0 - x + 1) as usize);
        set.set_bit((x0 + x) as usize, (y0 - y + 1) as usize);
        set.set_bit((x0 + y) as usize, (y0 - x + 1) as usize);
        proof {
            assert(set.bits() =~= bits_at_entry.union(
                even_sym(x0 as int, y0 as int, x as int, y as int),
            ));
        }
        let ghost oct_here = even_octant(k as int, x as int, y as int);
        let kk_lo = k * k - k;
        let kk_hi = k * k + k;
        let s_right = (x + 1) * (x + 1) + y * y;
        let s_down = x * x + (y - 1) * (y - 1);
        if kk_lo < s_right && s_right <= kk_hi {
            proof {
                let oct_next = even_octant(k as int, x as int + 1, y as int);
                assert(oct_here == oct_next.insert((x as int, y as int)));
                lemma_sym_image_even_insert(x0 as int, y0 as int, (x as int, y as int), oct_next);
                assert(set.bits().union(sym_image_even(x0 as int, y0 as int, oct_next))
                    =~= bits_at_entry.union(sym_image_even(x0 as int, y0 as int, oct_here)));
            }
            x = x + 1;
        } else if kk_lo < s_down && s_down <= kk_hi {
            proof {
                let oct_next = even_octant(k as int, x as int, y as int - 1);
                assert(oct_here == oct_next.insert((x as int, y as int)));
                lemma_sym_image_even_insert(x0 as int, y0 as int, (x as int, y as int), oct_next);
                assert(set.bits().union(sym_image_even(x0 as int, y0 as int, oct_next))
                    =~= bits_at_entry.union(sym_image_even(x0 as int, y0 as int, oct_here)));
            }
            y = y - 1;
        } else {
            proof {
                let oct_next = even_octant(k as int, x as int + 1, y as int - 1);
                assert(oct_here == oct_next.insert((x as int, y as int)));
                lemma_sym_image_even_insert(x0 as int, y0 as int, (x as int, y as int), oct_next);
                assert(set.bits().union(sym_image_even(x0 as int, y0 as int, oct_next))
                    =~= bits_at_entry.union(sym_image_even(x0 as int, y0 as int, oct_here)));
            }
            y = y - 1;
            x = x + 1;
        }
    }
    proof {
        assert(even_octant(k as int, x as int, y as int) =~= Set::<(int, int)>::empty());
        lemma_sym_image_even_empty(x0 as int, y0 as int);
        assert(set.bits() =~= set.bits().union(
            sym_image_even(x0 as int, y0 as int, even_octant(k as int, x as int, y as int)),
        ));
    }
}


/// The rectangle of positions spanned by two ordered corners, inclusive.
pub open spec fn rect_span(x1: int, y1: int, x2: int, y2: int) -> Set<(int, int)> {
    Set::new(|p: (int, int)| x1 <= p.0 <= x2 && y1 <= p.1 <= y2)
}

/// The centre the circle selection walks around: the midpoint of the two
/// corners, rounded toward the first.
pub open spec fn circle_mid(from: (usize, usize), to: (usize, usize)) -> (int, int) {
    ((from.0 + (to.0 - from.0) / 2), (from.1 + (to.1 - from.1) / 2))
}

/// The diameter the circle selection uses: the smaller of the two corner
/// distances.
pub open spec fn circle_d(from: (usize, usize), to: (usize, usize)) -> int {
    if to.0 - from.0 < to.1 - from.1 {
        to.0 - from.0
    } else {
        to.1 - from.1
    }
}

/// The radius bound of the circle selection, covering both parities.
pub open spec fn circle_rb(from: (usize, usize), to: (usize, usize)) -> int {
    (circle_d(from, to) + 1) / 2
}

impl VisualType {
    /// The set of positions a selection between `from` and `to` marks:
    /// the full rectangle for `Square`, and for `Circle` the even- or
    /// odd-diameter circle walk around the midpoint, by the parity of the
    /// smaller corner distance.
    pub open spec fn spec_selection(self, from: (usize, usize), to: (usize, usize)) -> Set<
        (int, int),
    > {
        match self {
            VisualType::Square => rect_span(from.0 as int, from.1 as int, to.0 as int, to.1 as int),
            VisualType::Circle => {
                let mid = circle_mid(from, to);
                let d = circle_d(from, to);
                if d % 2 == 1 {
                    even_circle(mid.0, mid.1, (d + 1) / 2)
                } else {
                    odd_circle(mid.0, mid.1, d / 2)
                }
            },
        }
    }

    /// Mark every position of the selection spanned by `from` and `to` in
    /// `set`. The corners must be ordered, as `get_selection` hands them
    /// out.
    pub fn select_pixels<T: BitMap2D>(&self, set: &mut T, from: (usize, usize), to: (usize, usize))
        requires
            from.0 <= to.0,
            from.1 <= to.1,
            (*self) is Circle ==> to.0 <= isize::MAX && to.1 <= isize::MAX && circle_mid(
                from,
                to,
            ).0 + circle_rb(from, to) <= isize::MAX && circle_mid(from, to).1 + circle_rb(from, to)
                <= isize::MAX && 2 * circle_rb(from, to) * circle_rb(from, to) + 4 * circle_rb(
                from,
                to,
            ) + 4 <= isize::MAX,
            (*self) is Circle && circle_d(from, to) % 2 == 1 ==> circle_mid(from, to).0 - circle_rb(
                from,
                to,
            ) + 1 >= 0 && circle_mid(from, to).1 - circle_rb(from, to) + 1 >= 0,
            (*self) is Circle && circle_d(from, to) % 2 != 1 ==> circle_mid(from, to).0 - circle_rb(
                from,
                to,
            ) >= 0 && circle_mid(from, to).1 - circle_rb(from, to) >= 0,
        ensures
            final(set).bits() == old(set).bits().union(self.spec_selection(from, to)),
    {
        let ghost old_bits = set.bits();
        match self {
            VisualType::Square => {
                let (x1, y1) = from;
                let (x2, y2) = to;
                let mut x = x1;
                loop
                    invariant_except_break
                        x1 <= x <= x2,
                        y1 <= y2,
                        set.bits() == old_bits.union(
                            Set::new(
                                |p: (int, int)| x1 <= p.0 < x && y1 <= p.1 <= y2
                            ),
                        ),
                    ensures
                        set.bits() == old_bits.union(
                            rect_span(x1 as int, y1 as int, x2 as int, y2 as int),
                        ),
                    decreases x2 - x,
                {
                    let ghost col_start = set.bits();
                    let mut y = y1;
                    loop
                        invariant_except_break
                            y1 <= y <= y2,
                            x1 <= x <= x2,
                            set.bits() == col_start.union(
                                Set::new(
                                    |p: (int, int)| p.0 == x && y1 <= p.1 < y
                                ),
                            ),
                        ensures
                            set.bits() == col_start.union(
                                Set::new(
                                    |p: (int, int)| p.0 == x && y1 <= p.1 <= y2
                                ),
                            ),
                        decreases y2 - y,
                    {
                        proof {
                            assert(set.bits() =~= col_start.union(
                                Set::new(|p: (int, int)| p.0 == x && y1 <= p.1 < y),
                            ));
                        }
                        set.set_bit(x, y);
                        proof {
                            assert(set.bits() =~= col_start.union(
                                Set::new(|p: (int, int)| p.0 == x && y1 <= p.1 < y + 1),
                            ));
                        }
                        if y == y2 {
                            break ;
                        }
                        y = y + 1;
                    }
                    proof {
                        assert(set.bits() =~= old_bits.union(
                            Set::new(
                                |p: (int, int)| x1 <= p.0 < x + 1 && y1 <= p.1 <= y2
                            ),
                        ));
                    }
                    if x == x2 {
                        proof {
                            assert(set.bits() =~= old_bits.union(
                                rect_span(x1 as int, y1 as int, x2 as int, y2 as int),
                            ));
                        }
                        break ;
                    }
                    x = x + 1;
                }
            },
            VisualType::Circle => {
                let (x1, y1) = from;
                let (x2, y2) = to;
                let udx = x2 - x1;
                let udy = y2 - y1;
                let mx = (x1 + udx / 2) as isize;
                let my = (y1 + udy / 2) as isize;
                let d = if udx < udy {
                    udx
                } else {
                    udy
                };
                proof {
                    let rb = circle_rb(from, to);
                    assert(d + 1 <= 2 * rb + 1);
                    assert(d / 2 <= rb);
                    assert(2 * (d / 2) * (d / 2) + 4 * (d / 2) + 4 <= 2 * rb * rb + 4 * rb + 4)
                        by (nonlinear_arith)
                        requires
                            0 <= d / 2 <= rb,
                    ;
                    assert(2 * ((d + 1) / 2) * ((d + 1) / 2) + 4 * ((d + 1) / 2) + 4 <= 2 * rb * rb
                        + 4 * rb + 4) by (nonlinear_arith)
                        requires
                            0 <= (d + 1) / 2 <= rb,
                    ;
                }
                if d % 2 == 1 {
                    let k = ((d + 1) / 2) as isize;
                    even_radius_andres(set, (mx, my), k);
                } else {
                    let r = (d / 2) as isize;
                    odd_radius_andres(set, (mx, my), r);
                }
            },
        }
    }
}

} // verus!
