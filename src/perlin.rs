use vstd::prelude::*;
use crate::sampling::random_below;

verus! {

/// Size of each permutation table, and of the gradient table they index.
pub const TABLE_SIZE: usize = 256;

/// The identity table `0, 1, ..., 255`.
pub open spec fn identity_table() -> Seq<u8> {
    Seq::new(256, |i: int| i as u8)
}

/// Shuffles the first `n` entries of `table` in place (Fisher-Yates): for
/// each position from `n - 1` down to `1`, swaps it with a position drawn
/// at random at or below it. The entries are rearranged, never changed,
/// and those from `n` on stay where they are.
pub fn permute(table: &mut Vec<u8>, n: usize)
    requires
        n <= old(table).len(),
    ensures
        final(table)@.len() == old(table)@.len(),
        final(table)@.to_multiset() == old(table)@.to_multiset(),
        final(table)@.subrange(n as int, final(table)@.len() as int) == old(table)@.subrange(
            n as int,
            old(table)@.len() as int,
        ),
{
    broadcast use vstd::seq_lib::group_to_multiset_ensures;

    let mut i: usize = n;
    while i > 1
        invariant
            i <= n <= table.len(),
            table@.len() == old(table)@.len(),
            table@.to_multiset() == old(table)@.to_multiset(),
            forall|p: int| n <= p < table@.len() ==> table@[p] == old(table)@[p],
        decreases i,
    {
        i = i - 1;
        let target = random_below(i + 1);
        let x = table[target];
        let y = table[i];
        let ghost before = table@;
        table.set(target, y);
        table.set(i, x);
        proof {
            broadcast use vstd::multiset::group_multiset_axioms;

            let mid = before.update(target as int, y);
            vstd::seq_lib::to_multiset_update(before, target as int, y);
            vstd::seq_lib::to_multiset_update(mid, i as int, x);
            assert(table@ == mid.update(i as int, x));
            assert(mid[i as int] == y);
            assert(before.contains(x));
            vstd::seq_lib::to_multiset_contains(before, x);
            assert(table@.to_multiset() =~= before.to_multiset());
        }
    }
    assert(table@.subrange(n as int, table@.len() as int) =~= old(table)@.subrange(
        n as int,
        old(table)@.len() as int,
    ));
}

/// A random permutation of `0..=255`.
pub fn perlin_generate_perm() -> (r: Vec<u8>)
    ensures
        r@.len() == TABLE_SIZE,
        r@.to_multiset() == identity_table().to_multiset(),
{
    let mut table: Vec<u8> = Vec::new();
    let mut v: usize = 0;
    while v < TABLE_SIZE
        invariant
            v <= TABLE_SIZE,
            table@ == Seq::new(v as nat, |i: int| i as u8),
        decreases TABLE_SIZE - v,
    {
        table.push(v as u8);
        v = v + 1;
    }
    assert(table@ =~= identity_table());
    permute(&mut table, TABLE_SIZE);
    table
}

/// The three permutation tables that hash a lattice cell of Perlin noise
/// to an entry of its gradient table.
pub struct PerlinTables {
    perm_x: Vec<u8>,
    perm_y: Vec<u8>,
    perm_z: Vec<u8>,
}

/// Wraps a lattice coordinate onto the tables.
pub open spec fn wrap(c: int) -> int {
    c % 256
}

impl PerlinTables {
    /// The table for axis `a` (0 is x, 1 is y, anything else z).
    pub closed spec fn perm(&self, a: int) -> Seq<u8> {
        if a == 0 {
            self.perm_x@
        } else if a == 1 {
            self.perm_y@
        } else {
            self.perm_z@
        }
    }

    pub open spec fn wf(&self) -> bool {
        &&& self.perm(0).to_multiset() == identity_table().to_multiset()
        &&& self.perm(1).to_multiset() == identity_table().to_multiset()
        &&& self.perm(2).to_multiset() == identity_table().to_multiset()
        &&& self.perm(0).len() == TABLE_SIZE
        &&& self.perm(1).len() == TABLE_SIZE
        &&& self.perm(2).len() == TABLE_SIZE
    }

    /// The gradient index of lattice point `(i, j, k)`: the exclusive or of
    /// the three tables at its wrapped coordinates.
    pub open spec fn hash(&self, i: int, j: int, k: int) -> u8 {
        self.perm(0)[wrap(i)] ^ self.perm(1)[wrap(j)] ^ self.perm(2)[wrap(k)]
    }

    /// Three independent random permutations of `0..=255`.
    pub fn new() -> (t: PerlinTables)
        ensures
            t.wf(),
    {
        PerlinTables {
            perm_x: perlin_generate_perm(),
            perm_y: perlin_generate_perm(),
            perm_z: perlin_generate_perm(),
        }
    }

    /// The table for axis `a`.
    pub fn table(&self, a: u8) -> (r: &Vec<u8>)
        ensures
            r@ == self.perm(a as int),
    {
        if a == 0 {
            &self.perm_x
        } else if a == 1 {
            &self.perm_y
        } else {
            &self.perm_z
        }
    }

    /// The gradient indices of the eight corners of the lattice cell whose
    /// lowest corner is `(i, j, k)`: the corner `(i + di, j + dj, k + dk)`
    /// stands at position `4 * di + 2 * dj + dk`. Coordinates past 255 wrap
    /// to 0.
    pub fn corner_indices(&self, i: u8, j: u8, k: u8) -> (r: Vec<usize>)
        requires
            self.wf(),
        ensures
            r@.len() == 8,
            forall|c: int|
                0 <= c < 8 ==> #[trigger] r@[c] == self.hash(i + c / 4, j + (c / 2) % 2, k + c % 2)
                    as usize,
    {
        let mut r: Vec<usize> = Vec::new();
        let mut di: usize = 0;
        while di < 2
            invariant
                self.wf(),
                di <= 2,
                r@.len() == 4 * di,
                forall|a: int, b: int, c: int|
                    0 <= a < di && 0 <= b < 2 && 0 <= c < 2 ==> #[trigger] r@[4 * a + 2 * b + c]
                        == self.hash(i + a, j + b, k + c) as usize,
            decreases 2 - di,
        {
            let mut dj: usize = 0;
            while dj < 2
                invariant
                    self.wf(),
                    di < 2,
                    dj <= 2,
                    r@.len() == 4 * di + 2 * dj,
                    forall|a: int, b: int, c: int|
                        0 <= a < 2 && 0 <= b < 2 && 0 <= c < 2 && (a < di || (a == di && b < dj))
                            ==> #[trigger] r@[4 * a + 2 * b + c] == self.hash(i + a, j + b, k + c) as usize,
                decreases 2 - dj,
            {
                let mut dk: usize = 0;
                while dk < 2
                    invariant
                        self.wf(),
                        di < 2,
                        dj < 2,
                        dk <= 2,
                        r@.len() == 4 * di + 2 * dj + dk,
                        forall|a: int, b: int, c: int|
                            0 <= a < 2 && 0 <= b < 2 && 0 <= c < 2 && (a < di || (a == di && b < dj)
                                || (a == di && b == dj && c < dk)) ==> #[trigger] r@[4 * a + 2 * b + c]
                                == self.hash(i + a, j + b, k + c) as usize,
                    decreases 2 - dk,
                {
                    let h = self.perm_x[(i as usize + di) % TABLE_SIZE] ^ self.perm_y[(j as usize
                        + dj) % TABLE_SIZE] ^ self.perm_z[(k as usize + dk) % TABLE_SIZE];
                    r.push(h as usize);
                    dk = dk + 1;
                }
                dj = dj + 1;
            }
            di = di + 1;
        }
        assert forall|c: int| 0 <= c < 8 implies #[trigger] r@[c] == self.hash(
            i + c / 4,
            j + (c / 2) % 2,
            k + c % 2,
        ) as usize by {
            let (a, b, d) = (c / 4, (c / 2) % 2, c % 2);
            assert(c == 4 * a + 2 * b + d);
            assert(r@[4 * a + 2 * b + d] == self.hash(i + a, j + b, k + d) as usize);
        }
        r
    }
}

} // verus!
