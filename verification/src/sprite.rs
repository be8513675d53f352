use vstd::prelude::*;

verus! {

use crate::V2;

/// One drawable record of a sprite chain, as specifications see it:
/// placement, scale, depth, the grid of atlas indices, and the flip flag.
#[verifier::ext_equal]
pub struct SpriteNode {
    pub pos: V2<i64>,
    pub scale: V2<i64>,
    pub depth: i64,
    pub tex_indices: Seq<Seq<usize>>,
    pub flip: bool,
}

/// A drawable descriptor: one record plus an optional chained continuation.
/// The rendering collaborator walks the chain; the core only builds it.
pub struct Sprite {
    pub pos: V2<i64>,
    pub scale: V2<i64>,
    pub depth: i64,
    pub tex_indices: Vec<Vec<usize>>,
    pub next: Option<Box<Sprite>>,
    pub flip: bool,
}

/// The record of one chain link.
pub open spec fn node_of(s: Sprite) -> SpriteNode {
    SpriteNode {
        pos: s.pos,
        scale: s.scale,
        depth: s.depth,
        tex_indices: s.tex_indices@.map_values(|row: Vec<usize>| row@),
        flip: s.flip,
    }
}

/// The record of the empty descriptor.
pub open spec fn empty_node() -> SpriteNode {
    SpriteNode {
        pos: V2 { x: 0i64, y: 0i64 },
        scale: V2 { x: 0i64, y: 0i64 },
        depth: -crate::FX_ONE as int as i64,
        tex_indices: Seq::<Seq<usize>>::empty(),
        flip: false,
    }
}

/// A sprite chain as the sequence of its records, head first.
pub open spec fn chain_view(s: Sprite) -> Seq<SpriteNode>
    decreases s,
{
    seq![node_of(s)] + match s.next {
        Some(b) => chain_view(*b),
        None => Seq::<SpriteNode>::empty(),
    }
}

impl Sprite {
    /// A unit sprite showing the single atlas cell `index`.
    pub fn single(index: usize) -> (r: Sprite)
        ensures
            r.pos == (V2 { x: 0i64, y: 0i64 }),
            r.scale == (V2 { x: crate::FX_ONE, y: crate::FX_ONE }),
            r.depth == -crate::FX_ONE,
            r.tex_indices@.len() == 1,
            r.tex_indices@[0]@ == seq![index],
            r.next is None,
            r.flip == false,
    {
        let mut column: Vec<usize> = Vec::new();
        column.push(index);
        let mut grid: Vec<Vec<usize>> = Vec::new();
        grid.push(column);
        Sprite {
            pos: V2 { x: 0, y: 0 },
            scale: V2 { x: 1000, y: 1000 },
            depth: -1000,
            tex_indices: grid,
            next: None,
            flip: false,
        }
    }

    /// A sprite covering a rectangle of atlas cells: column `c` holds the
    /// indices `n * ss_width + start + c` for each row `n`.
    pub fn composite(start: usize, shape: V2<usize>, ss_width: usize) -> (r: Sprite)
        requires
            shape.y * ss_width + start + shape.x <= usize::MAX,
        ensures
            r.pos == (V2 { x: 0i64, y: 0i64 }),
            r.scale == (V2 { x: crate::FX_ONE, y: crate::FX_ONE }),
            r.depth == -crate::FX_ONE,
            r.tex_indices@.len() == shape.x,
            forall|c: int|
                0 <= c < shape.x ==> #[trigger] r.tex_indices@[c]@.len() == shape.y,
            forall|c: int, n: int|
                0 <= c < shape.x && 0 <= n < shape.y ==> #[trigger] r.tex_indices@[c]@[n] == n
                    * ss_width + start + c,
            r.next is None,
            r.flip == false,
    {
        let mut grid: Vec<Vec<usize>> = Vec::new();
        let mut c: usize = 0;
        while c < shape.x
            invariant
                c <= shape.x,
                shape.y * ss_width + start + shape.x <= usize::MAX,
                grid@.len() == c,
                forall|ci: int| 0 <= ci < c ==> #[trigger] grid@[ci]@.len() == shape.y,
                forall|ci: int, n: int|
                    0 <= ci < c && 0 <= n < shape.y ==> #[trigger] grid@[ci]@[n] == n * ss_width
                        + start + ci,
            decreases shape.x - c,
        {
            let mut column: Vec<usize> = Vec::new();
            let mut n: usize = 0;
            while n < shape.y
                invariant
                    n <= shape.y,
                    c < shape.x,
                    shape.y * ss_width + start + shape.x <= usize::MAX,
                    column@.len() == n,
                    forall|ni: int|
                        0 <= ni < n ==> #[trigger] column@[ni] == ni * ss_width + start + c,
                decreases shape.y - n,
            {
                proof {
                    assert(n * ss_width <= shape.y * ss_width) by (nonlinear_arith)
                        requires
                            0 <= n < shape.y,
                            0 <= ss_width,
                    ;
                }
                column.push(n * ss_width + start + c);
                n += 1;
            }
            grid.push(column);
            c += 1;
        }
        Sprite {
            pos: V2 { x: 0, y: 0 },
            scale: V2 { x: 1000, y: 1000 },
            depth: -1000,
            tex_indices: grid,
            next: None,
            flip: false,
        }
    }

    /// The empty descriptor: zero scale, no cells, no continuation.
    pub fn empty() -> (r: Sprite)
        ensures
            r.pos == (V2 { x: 0i64, y: 0i64 }),
            r.scale == (V2 { x: 0i64, y: 0i64 }),
            r.depth == -crate::FX_ONE,
            r.tex_indices@ == Seq::<Vec<usize>>::empty(),
            r.next is None,
            r.flip == false,
    {
        Sprite {
            pos: V2 { x: 0, y: 0 },
            scale: V2 { x: 0, y: 0 },
            depth: -1000,
            tex_indices: Vec::new(),
            next: None,
            flip: false,
        }
    }

    /// Repeat the index grid so it appears `times` times in a row (once for
    /// `times` zero or one, as the count names the total).
    pub fn repeat(self, times: usize) -> (r: Sprite)
        ensures
            r.pos == self.pos,
            r.scale == self.scale,
            r.depth == self.depth,
            r.next == self.next,
            r.flip == self.flip,
            times <= 1 ==> r.tex_indices@ == self.tex_indices@,
            times > 1 ==> r.tex_indices@.len() == times * self.tex_indices@.len(),
            forall|i: int|
                0 <= i < r.tex_indices@.len() ==> #[trigger] r.tex_indices@[i]@
                    == self.tex_indices@[i % (if self.tex_indices@.len() == 0 {
                    1int
                } else {
                    self.tex_indices@.len() as int
                })]@,
    {
        let mut out = self;
        let base_len = out.tex_indices.len();
        if base_len == 0 {
            return out;
        }
        proof {
            assert forall|i: int| 0 <= i < base_len implies #[trigger] (i % (base_len as int))
                == i by {
                assert(i % (base_len as int) == i) by (nonlinear_arith)
                    requires
                        0 <= i < base_len as int,
                ;
            }
        }
        let mut t: usize = 1;
        while t < times
            invariant
                1 <= t,
                times >= 1 ==> t <= times,
                base_len >= 1,
                out.tex_indices@.len() == t * base_len,
                out.pos == self.pos,
                out.scale == self.scale,
                out.depth == self.depth,
                out.next == self.next,
                out.flip == self.flip,
                base_len == self.tex_indices@.len(),
                t == 1 ==> out.tex_indices@ == self.tex_indices@,
                times <= 1 ==> t == 1,
                forall|i: int|
                    0 <= i < out.tex_indices@.len() ==> #[trigger] out.tex_indices@[i]@
                        == self.tex_indices@[i % (base_len as int)]@,
            decreases times - t,
        {
            let mut k: usize = 0;
            let ghost before = out.tex_indices@;
            proof {
                assert(t * base_len + base_len <= times * base_len) by (nonlinear_arith)
                    requires
                        t < times,
                        0 <= base_len,
                ;
            }
            while k < base_len
                invariant
                    k <= base_len,
                    1 <= t,
                    t < times,
                    base_len >= 1,
                    base_len == self.tex_indices@.len(),
                    t * base_len + base_len <= times * base_len,
                    out.tex_indices@.len() == t * base_len + k,
                    out.pos == self.pos,
                    out.scale == self.scale,
                    out.depth == self.depth,
                    out.next == self.next,
                    out.flip == self.flip,
                    forall|i: int|
                        0 <= i < out.tex_indices@.len() ==> #[trigger] out.tex_indices@[i]@
                            == self.tex_indices@[i % (base_len as int)]@,
                decreases base_len - k,
            {
                proof {
                    assert(base_len <= t * base_len) by (nonlinear_arith)
                        requires
                            1 <= t,
                            0 <= base_len,
                    ;
                }
                let row: Vec<usize> = clone_row(&out.tex_indices[k]);
                out.tex_indices.push(row);
                proof {
                    let m = out.tex_indices@.len() - 1;
                    assert(m == t * base_len + k);
                    assert(m % (base_len as int) == k) by (nonlinear_arith)
                        requires
                            m == t * base_len + k,
                            0 <= k < base_len,
                            1 <= t,
                    ;
                    assert((k as int) % (base_len as int) == k as int) by (nonlinear_arith)
                        requires
                            0 <= k < base_len,
                    ;
                }
                k += 1;
            }
            proof {
                assert((t + 1) * base_len == t * base_len + base_len) by (nonlinear_arith);
            }
            t += 1;
        }
        proof {
            if times > 1 {
                assert(out.tex_indices@.len() == times * base_len);
            }
            assert forall|i: int| 0 <= i < self.tex_indices@.len() implies #[trigger] self
                .tex_indices@[i]@ == self.tex_indices@[i % (base_len as int)]@ by {
                assert(i % (base_len as int) == i) by (nonlinear_arith)
                    requires
                        0 <= i < base_len as int,
                ;
            }
        }
        out
    }

    pub fn with_pos(self, pos: V2<i64>) -> (r: Sprite)
        ensures
            r == (Sprite { pos, ..self }),
    {
        Sprite { pos, ..self }
    }

    pub fn with_scale(self, scale: V2<i64>) -> (r: Sprite)
        ensures
            r == (Sprite { scale, ..self }),
    {
        Sprite { scale, ..self }
    }

    pub fn with_depth(self, depth: i64) -> (r: Sprite)
        ensures
            r == (Sprite { depth, ..self }),
    {
        Sprite { depth, ..self }
    }

    /// Append `sprite` (itself possibly a chain) at the tail of this chain.
    pub fn next(&mut self, sprite: Sprite)
        ensures
            chain_view(*final(self)) == chain_view(*old(self)) + chain_view(sprite),
        decreases *old(self),
    {
        let mut tail: Option<Box<Sprite>> = None;
        core::mem::swap(&mut self.next, &mut tail);
        match tail {
            None => {
                self.next = Some(Box::new(sprite));
                proof {
                    assert(chain_view(*self) =~= chain_view(*old(self)) + chain_view(sprite));
                }
            },
            Some(mut b) => {
                b.next(sprite);
                self.next = Some(b);
                proof {
                    assert(chain_view(*self) =~= chain_view(*old(self)) + chain_view(sprite));
                }
            },
        }
    }

    /// A copy of this sprite chain, showing the same records.
    pub fn dup(&self) -> (r: Sprite)
        ensures
            chain_view(r) == chain_view(*self),
        decreases *self,
    {
        let mut grid: Vec<Vec<usize>> = Vec::new();
        let mut i: usize = 0;
        while i < self.tex_indices.len()
            invariant
                i <= self.tex_indices@.len(),
                grid@.len() == i,
                forall|j: int| 0 <= j < i ==> #[trigger] grid@[j]@ == self.tex_indices@[j]@,
            decreases self.tex_indices@.len() - i,
        {
            grid.push(clone_row(&self.tex_indices[i]));
            i += 1;
        }
        let tail: Option<Box<Sprite>> = match &self.next {
            None => None,
            Some(b) => Some(Box::new(b.dup())),
        };
        let r = Sprite {
            pos: self.pos,
            scale: self.scale,
            depth: self.depth,
            tex_indices: grid,
            next: tail,
            flip: self.flip,
        };
        proof {
            assert(node_of(r).tex_indices =~= node_of(*self).tex_indices);
            assert(chain_view(r) =~= chain_view(*self));
        }
        r
    }
}

impl Default for Sprite {
    fn default() -> (r: Sprite)
        ensures
            r.pos == (V2 { x: 0i64, y: 0i64 }),
            r.scale == (V2 { x: 0i64, y: 0i64 }),
            r.depth == 0,
            r.tex_indices@ == Seq::<Vec<usize>>::empty(),
            r.next is None,
            r.flip == false,
    {
        Sprite {
            pos: V2 { x: 0, y: 0 },
            scale: V2 { x: 0, y: 0 },
            depth: 0,
            tex_indices: Vec::new(),
            next: None,
            flip: false,
        }
    }
}

/// An exact copy of one index row.
fn clone_row(row: &Vec<usize>) -> (r: Vec<usize>)
    ensures
        r@ == row@,
{
    let mut out: Vec<usize> = Vec::new();
    let mut i: usize = 0;
    while i < row.len()
        invariant
            i <= row@.len(),
            out@ == row@.take(i as int),
        decreases row@.len() - i,
    {
        out.push(row[i]);
        proof {
            assert(out@ =~= row@.take(i as int + 1));
        }
        i += 1;
    }
    proof {
        assert(row@.take(row@.len() as int) =~= row@);
    }
    out
}

} // verus!
