//! Drawing sprites into the framebuffer.

use crate::model::{row_covers, sprite_bit, sprite_collides, sprite_covers, sprite_drawn, toggled};
use vstd::prelude::*;

verus! {

/// Toggling a cell that holds `0` or `1` is an exclusive or with `1`.
proof fn lemma_toggle(cell: u8)
    requires
        cell <= 1,
    ensures
        cell ^ 1 == toggled(cell),
{
    assert(cell <= 1 ==> (cell ^ 1) == (if cell == 0 {
        1u8
    } else {
        0u8
    })) by (bit_vector);
}

/// Whether the first `width` bits of a sprite row, drawn in row `py` from
/// column `vx` on, have a set bit over a cell of `screen` that is lit.
pub(crate) open spec fn row_collides(
    screen: Seq<u8>,
    bits: u8,
    vx: int,
    py: int,
    width: int,
) -> bool {
    exists|c: int|
        0 <= c < screen.len() && #[trigger] row_covers(bits, vx, py, width, c) && screen[c] == 1
}

/// Draws one sprite row into row `py` of the framebuffer, its leftmost
/// pixel in column `vx`, dropping the pixels that fall beyond the last
/// column. Returns whether a lit cell was toggled.
pub(crate) fn draw_row(screen: &mut [u8; 2048], bits: u8, vx: usize, py: usize) -> (collided: bool)
    requires
        vx <= 255,
        py < 32,
        forall|c: int| 0 <= c < 2048 ==> #[trigger] old(screen)[c] <= 1,
    ensures
        forall|c: int| 0 <= c < 2048 ==> #[trigger] final(screen)[c] <= 1,
        forall|c: int|
            0 <= c < 2048 ==> #[trigger] final(screen)[c] == if row_covers(
                bits,
                vx as int,
                py as int,
                8,
                c,
            ) {
                toggled(old(screen)[c])
            } else {
                old(screen)[c]
            },
        collided <==> row_collides(old(screen)@, bits, vx as int, py as int, 8),
    no_unwind
{
    let mut collided = false;
    let mut bit: usize = 0;
    while bit < 8 && vx + bit < 64
        invariant
            bit <= 8,
            vx <= 255,
            py < 32,
            forall|c: int| 0 <= c < 2048 ==> #[trigger] screen[c] <= 1,
            forall|c: int|
                0 <= c < 2048 ==> #[trigger] screen[c] == if row_covers(
                    bits,
                    vx as int,
                    py as int,
                    bit as int,
                    c,
                ) {
                    toggled(old(screen)[c])
                } else {
                    old(screen)[c]
                },
            collided <==> row_collides(old(screen)@, bits, vx as int, py as int, bit as int),
        decreases 8 - bit,
    {
        let ghost before = collided;
        let ghost here: int = py * 64 + vx + bit;
        let mask: u8 = 0x80u8 >> (bit as u8);
        if bits & mask != 0 {
            let cell: usize = py * 64 + vx + bit;
            let lit: u8 = screen[cell];
            proof {
                lemma_toggle(lit);
                assert(row_covers(bits, vx as int, py as int, bit + 1, cell as int));
                assert(!row_covers(bits, vx as int, py as int, bit as int, cell as int));
            }
            if lit == 1 {
                collided = true;
            }
            screen[cell] = lit ^ 1;
        }
        proof {
            let (w, x, y) = (bit as int, vx as int, py as int);
            assert forall|c: int| 0 <= c < 2048 implies (row_covers(bits, x, y, w + 1, c)
                <==> row_covers(bits, x, y, w, c) || (c == here && sprite_bit(bits, w))) by {}
            if row_collides(old(screen)@, bits, x, y, w + 1) {
                let c = choose|c: int|
                    0 <= c < 2048 && #[trigger] row_covers(bits, x, y, w + 1, c) && old(screen)[c]
                        == 1;
                if row_covers(bits, x, y, w, c) {
                    assert(before);
                } else {
                    assert(c == here);
                }
                assert(collided);
            }
            if collided {
                if before {
                    let c = choose|c: int|
                        0 <= c < 2048 && #[trigger] row_covers(bits, x, y, w, c) && old(screen)[c]
                            == 1;
                    assert(row_covers(bits, x, y, w + 1, c));
                } else {
                    assert(row_covers(bits, x, y, w + 1, here));
                    assert(old(screen)[here] == 1);
                }
            }
        }
        bit = bit + 1;
    }
    proof {
        let (w, x, y) = (bit as int, vx as int, py as int);
        assert forall|c: int| 0 <= c < 2048 implies (row_covers(bits, x, y, 8, c) <==> row_covers(
            bits,
            x,
            y,
            w,
            c,
        )) by {}
        if row_collides(old(screen)@, bits, x, y, 8) {
            let c = choose|c: int|
                0 <= c < 2048 && #[trigger] row_covers(bits, x, y, 8, c) && old(screen)[c] == 1;
            assert(row_covers(bits, x, y, w, c));
        }
        if collided {
            let c = choose|c: int|
                0 <= c < 2048 && #[trigger] row_covers(bits, x, y, w, c) && old(screen)[c] == 1;
            assert(row_covers(bits, x, y, 8, c));
        }
    }
    collided
}

/// Draws the `n` sprite rows at `memory[index..index + n]` with the corner
/// of the sprite in column `vx` of row `vy`, dropping what falls beyond the
/// last column or the last row. Returns whether a lit cell was toggled.
pub(crate) fn draw_sprite(
    screen: &mut [u8; 2048],
    memory: &[u8; 4096],
    index: usize,
    n: usize,
    vx: usize,
    vy: usize,
) -> (collided: bool)
    requires
        index + n <= 4096,
        vx <= 255,
        vy <= 255,
        forall|c: int| 0 <= c < 2048 ==> #[trigger] old(screen)[c] <= 1,
    ensures
        forall|c: int| 0 <= c < 2048 ==> #[trigger] final(screen)[c] <= 1,
        final(screen)@ == sprite_drawn(
            old(screen)@,
            memory@.subrange(index as int, index + n),
            vx as int,
            vy as int,
        ),
        collided <==> sprite_collides(
            old(screen)@,
            memory@.subrange(index as int, index + n),
            vx as int,
            vy as int,
        ),
    no_unwind
{
    let ghost sprite = memory@.subrange(index as int, index + n);
    let ghost (x, y) = (vx as int, vy as int);
    let mut collided = false;
    let mut row: usize = 0;
    while row < n && vy + row < 32
        invariant
            row <= n,
            index + n <= 4096,
            vx <= 255,
            vy <= 255,
            x == vx,
            y == vy,
            sprite == memory@.subrange(index as int, index + n),
            forall|c: int| 0 <= c < 2048 ==> #[trigger] screen[c] <= 1,
            forall|c: int|
                0 <= c < 2048 ==> #[trigger] screen[c] == if sprite_covers(
                    sprite.take(row as int),
                    x,
                    y,
                    c,
                ) {
                    toggled(old(screen)[c])
                } else {
                    old(screen)[c]
                },
            collided <==> sprite_collides(old(screen)@, sprite.take(row as int), x, y),
        decreases n - row,
    {
        let ghost before = collided;
        let ghost mid = screen@;
        let bits: u8 = memory[index + row];
        let hit = draw_row(screen, bits, vx, vy + row);
        if hit {
            collided = true;
        }
        proof {
            let r = row as int;
            let (done, next) = (sprite.take(r), sprite.take(r + 1));
            assert(bits == sprite[r]);
            assert forall|c: int| 0 <= c < 2048 implies (sprite_covers(next, x, y, c)
                <==> sprite_covers(done, x, y, c) || row_covers(bits, x, y + r, 8, c)) by {}
            assert forall|c: int| 0 <= c < 2048 && row_covers(bits, x, y + r, 8, c) implies mid[c]
                == old(screen)[c] by {
                assert(!sprite_covers(done, x, y, c));
            }
            if sprite_collides(old(screen)@, next, x, y) {
                let c = choose|c: int|
                    0 <= c < 2048 && #[trigger] sprite_covers(next, x, y, c) && old(screen)[c]
                        == 1;
                if sprite_covers(done, x, y, c) {
                    assert(before);
                } else {
                    assert(row_covers(bits, x, y + r, 8, c));
                    assert(mid[c] == 1);
                    assert(hit);
                }
            }
            if collided {
                if before {
                    let c = choose|c: int|
                        0 <= c < 2048 && #[trigger] sprite_covers(done, x, y, c) && old(screen)[c]
                            == 1;
                    assert(sprite_covers(next, x, y, c));
                } else {
                    let c = choose|c: int|
                        0 <= c < 2048 && #[trigger] row_covers(bits, x, y + r, 8, c) && mid[c]
                            == 1;
                    assert(sprite_covers(next, x, y, c));
                }
            }
        }
        row = row + 1;
    }
    proof {
        let done = sprite.take(row as int);
        assert forall|c: int| 0 <= c < 2048 implies (sprite_covers(sprite, x, y, c)
            <==> sprite_covers(done, x, y, c)) by {}
        if sprite_collides(old(screen)@, sprite, x, y) {
            let c = choose|c: int|
                0 <= c < 2048 && #[trigger] sprite_covers(sprite, x, y, c) && old(screen)[c] == 1;
            assert(sprite_covers(done, x, y, c));
        }
        if collided {
            let c = choose|c: int|
                0 <= c < 2048 && #[trigger] sprite_covers(done, x, y, c) && old(screen)[c] == 1;
            assert(sprite_covers(sprite, x, y, c));
        }
        assert(screen@ =~= sprite_drawn(old(screen)@, sprite, x, y));
    }
    collided
}

} // verus!
