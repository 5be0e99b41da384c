use vstd::prelude::*;
use crate::color::{RealBits, Rgb};

verus! {

/// Shared data of one kind of tile, referred to by its id from tile maps.
#[derive(Clone, Copy, Debug, PartialEq, Eq, Structural)]
pub struct Tile {
    /// Key of the tile in a [`TileBank`]; tile maps store only this.
    pub id: u16,
    pub color: Rgb,
}

impl Tile {
    /// A black tile with the given id.
    pub fn new(id: u16) -> (t: Tile)
        ensures
            t.id == id,
            t.color == Rgb::black_spec(),
    {
        Tile { id, color: Rgb::black() }
    }
}

/// Ids strictly increase along the sequence (so each id occurs at most once).
pub open spec fn sorted_by_id(s: Seq<Tile>) -> bool {
    forall|i: int, j: int| 0 <= i < j < s.len() ==> s[i].id < s[j].id
}

/// Some entry of the sequence carries `id`.
pub open spec fn has_id(s: Seq<Tile>, id: u16) -> bool {
    exists|i: int| 0 <= i < s.len() && s[i].id == id
}

/// Length of the leading run of entries whose id is below `id`: in a sorted
/// sequence, the position where `id` is or would go.
pub open spec fn lower_bound(s: Seq<Tile>, id: u16) -> nat
    decreases s.len(),
{
    if s.len() == 0 {
        0
    } else if s[0].id < id {
        1 + lower_bound(s.drop_first(), id)
    } else {
        0
    }
}

/// The sequence after registering `t`: an entry with the same id is replaced
/// in place, otherwise `t` is inserted where the order puts it.
pub open spec fn insert_sorted(s: Seq<Tile>, t: Tile) -> Seq<Tile> {
    let k = lower_bound(s, t.id) as int;
    if k < s.len() && s[k].id == t.id {
        s.update(k, t)
    } else {
        s.insert(k, t)
    }
}

/// Contents of a bank, created empty, after registering `ops` in order.
pub open spec fn registered_all(ops: Seq<Tile>) -> Seq<Tile>
    decreases ops.len(),
{
    if ops.len() == 0 {
        Seq::empty()
    } else {
        insert_sorted(registered_all(ops.drop_last()), ops.last())
    }
}

/// The last tile of `ops` that carries `id`, if any.
pub open spec fn latest(ops: Seq<Tile>, id: u16) -> Option<Tile>
    decreases ops.len(),
{
    if ops.len() == 0 {
        None
    } else if ops.last().id == id {
        Some(ops.last())
    } else {
        latest(ops.drop_last(), id)
    }
}

proof fn lemma_lower_bound(s: Seq<Tile>, id: u16)
    requires
        sorted_by_id(s),
    ensures
        lower_bound(s, id) <= s.len(),
        forall|j: int| 0 <= j < lower_bound(s, id) ==> s[j].id < id,
        forall|j: int| lower_bound(s, id) <= j < s.len() ==> s[j].id >= id,
    decreases s.len(),
{
    if s.len() > 0 && s[0].id < id {
        let t = s.drop_first();
        assert(sorted_by_id(t));
        lemma_lower_bound(t, id);
        assert forall|j: int| 0 <= j < lower_bound(s, id) implies s[j].id < id by {
            if j > 0 {
                assert(s[j] == t[j - 1]);
            }
        }
        assert forall|j: int| lower_bound(s, id) <= j < s.len() implies s[j].id >= id by {
            assert(s[j] == t[j - 1]);
        }
    } else if s.len() > 0 {
        assert forall|j: int| 0 <= j < s.len() implies s[j].id >= id by {
            if j > 0 {
                assert(s[0].id < s[j].id);
            }
        }
    }
}

/// In a sorted sequence the split point between ids below `id` and the rest
/// is unique, and it is `lower_bound`.
proof fn lemma_lower_bound_unique(s: Seq<Tile>, id: u16, k: int)
    requires
        sorted_by_id(s),
        0 <= k <= s.len(),
        forall|j: int| 0 <= j < k ==> s[j].id < id,
        forall|j: int| k <= j < s.len() ==> s[j].id >= id,
    ensures
        lower_bound(s, id) == k,
{
    lemma_lower_bound(s, id);
    let lb = lower_bound(s, id) as int;
    if lb < k {
        assert(s[lb].id >= id);
    } else if lb > k {
        assert(s[k].id < id);
    }
}

/// Registering keeps the order, puts `t` in, and leaves every other id's
/// entry as it was.
proof fn lemma_insert_sorted(s: Seq<Tile>, t: Tile)
    requires
        sorted_by_id(s),
    ensures
        sorted_by_id(insert_sorted(s, t)),
        has_id(insert_sorted(s, t), t.id),
        forall|i: int|
            0 <= i < insert_sorted(s, t).len() && #[trigger] insert_sorted(s, t)[i].id == t.id
                ==> insert_sorted(s, t)[i] == t,
        forall|id: u16| id != t.id ==> has_id(insert_sorted(s, t), id) == has_id(s, id),
        forall|i: int|
            0 <= i < insert_sorted(s, t).len() && #[trigger] insert_sorted(s, t)[i].id != t.id
                ==> s.contains(insert_sorted(s, t)[i]),
{
    lemma_lower_bound(s, t.id);
    let k = lower_bound(s, t.id) as int;
    let r = insert_sorted(s, t);
    if k < s.len() && s[k].id == t.id {
        assert(r =~= s.update(k, t));
        assert(r[k].id == t.id);
        assert forall|id: u16| id != t.id implies has_id(r, id) == has_id(s, id) by {
            if has_id(s, id) {
                let i = choose|i: int| 0 <= i < s.len() && s[i].id == id;
                assert(r[i].id == id);
            }
            if has_id(r, id) {
                let i = choose|i: int| 0 <= i < r.len() && r[i].id == id;
                assert(s[i].id == id);
            }
        }
        assert forall|i: int| 0 <= i < r.len() && #[trigger] r[i].id != t.id implies s.contains(
            r[i],
        ) by {
            assert(s[i] == r[i]);
        }
    } else {
        assert(r =~= s.insert(k, t));
        assert(r[k].id == t.id);
        assert forall|id: u16| id != t.id implies has_id(r, id) == has_id(s, id) by {
            if has_id(s, id) {
                let i = choose|i: int| 0 <= i < s.len() && s[i].id == id;
                if i < k {
                    assert(r[i].id == id);
                } else {
                    assert(r[i + 1].id == id);
                }
            }
            if has_id(r, id) {
                let i = choose|i: int| 0 <= i < r.len() && r[i].id == id;
                if i < k {
                    assert(s[i].id == id);
                } else {
                    assert(s[i - 1].id == id);
                }
            }
        }
        assert forall|i: int| 0 <= i < r.len() && #[trigger] r[i].id != t.id implies s.contains(
            r[i],
        ) by {
            if i < k {
                assert(s[i] == r[i]);
            } else {
                assert(s[i - 1] == r[i]);
            }
        }
    }
}

/// Registering any sequence of tiles into an empty bank yields a sequence
/// sorted by id in which an id is present exactly when it was registered,
/// and its entry is the last tile registered under it.
pub proof fn lemma_register_sequence(ops: Seq<Tile>, id: u16)
    ensures
        sorted_by_id(registered_all(ops)),
        has_id(registered_all(ops), id) == latest(ops, id).is_some(),
        forall|i: int|
            0 <= i < registered_all(ops).len() && #[trigger] registered_all(ops)[i].id == id
                ==> latest(ops, id) == Some(registered_all(ops)[i]),
    decreases ops.len(),
{
    if ops.len() > 0 {
        let prev = ops.drop_last();
        let t = ops.last();
        lemma_register_sequence(prev, id);
        let s = registered_all(prev);
        lemma_insert_sorted(s, t);
        let r = registered_all(ops);
        assert(r == insert_sorted(s, t));
        if id != t.id {
            assert forall|i: int| 0 <= i < r.len() && #[trigger] r[i].id == id implies latest(
                ops,
                id,
            ) == Some(r[i]) by {
                assert(r[i].id != t.id);
                assert(s.contains(r[i]));
                let j = choose|j: int| 0 <= j < s.len() && s[j] == r[i];
                assert(s[j].id == id);
            }
        }
    }
}

/// Registering two tiles with the same id leaves what registering the second
/// alone would: a single entry for that id, holding the second tile.
pub proof fn lemma_register_same_id_twice(s: Seq<Tile>, a: Tile, b: Tile)
    requires
        sorted_by_id(s),
        a.id == b.id,
    ensures
        insert_sorted(insert_sorted(s, a), b) == insert_sorted(s, b),
        has_id(insert_sorted(insert_sorted(s, a), b), b.id),
        forall|i: int|
            0 <= i < insert_sorted(insert_sorted(s, a), b).len()
                && #[trigger] insert_sorted(insert_sorted(s, a), b)[i].id == b.id
                ==> insert_sorted(insert_sorted(s, a), b)[i] == b,
{
    lemma_lower_bound(s, a.id);
    let k = lower_bound(s, a.id) as int;
    let s1 = insert_sorted(s, a);
    lemma_insert_sorted(s, a);
    assert forall|j: int| 0 <= j < k implies s1[j].id < b.id by {
        assert(s1[j] == s[j]);
    }
    assert forall|j: int| k <= j < s1.len() implies s1[j].id >= b.id by {
        if j > k {
            assert(s1[k].id < s1[j].id);
        }
    }
    lemma_lower_bound_unique(s1, b.id, k);
    assert(insert_sorted(s1, b) =~= insert_sorted(s, b));
    lemma_insert_sorted(s1, b);
}

/// The entry of `s` that carries `id` (meaningful when [`has_id`] holds).
pub open spec fn tile_with_id(s: Seq<Tile>, id: u16) -> Tile {
    s[choose|i: int| 0 <= i < s.len() && s[i].id == id]
}

/// The cells of `cells` whose id resolves in `bank`, in cell order, each with
/// its flat index and the tile it resolves to.
pub open spec fn drawn_cells(cells: Seq<u16>, bank: Seq<Tile>) -> Seq<(usize, Tile)>
    decreases cells.len(),
{
    if cells.len() == 0 {
        Seq::empty()
    } else {
        let prev = drawn_cells(cells.drop_last(), bank);
        if has_id(bank, cells.last()) {
            prev.push(((cells.len() - 1) as usize, tile_with_id(bank, cells.last())))
        } else {
            prev
        }
    }
}

/// In a sorted sequence an entry is determined by its id.
proof fn lemma_entry_by_id(s: Seq<Tile>, t: Tile)
    requires
        sorted_by_id(s),
        s.contains(t),
    ensures
        has_id(s, t.id),
        tile_with_id(s, t.id) == t,
{
    let j = choose|j: int| 0 <= j < s.len() && s[j] == t;
    assert(s[j].id == t.id);
    let i = choose|i: int| 0 <= i < s.len() && s[i].id == t.id;
    if i < j {
        assert(s[i].id < s[j].id);
    } else if i > j {
        assert(s[j].id < s[i].id);
    }
}

/// Registry of tiles, kept sorted by id so that lookups are binary searches.
pub struct TileBank {
    tiles: Vec<Tile>,
}

impl View for TileBank {
    type V = Seq<Tile>;

    closed spec fn view(&self) -> Seq<Tile> {
        self.tiles@
    }
}

impl TileBank {
    /// The bank's invariant: entries sorted by strictly increasing id.
    pub open spec fn wf(&self) -> bool {
        sorted_by_id(self@)
    }

    /// An empty bank.
    pub fn new() -> (b: TileBank)
        ensures
            b.wf(),
            b@ == Seq::<Tile>::empty(),
    {
        TileBank { tiles: Vec::new() }
    }

    /// Number of registered tiles.
    pub fn len(&self) -> (n: usize)
        ensures
            n == self@.len(),
    {
        self.tiles.len()
    }

    /// The entry at position `i` of the sorted order.
    pub fn tile_at(&self, i: usize) -> (t: Tile)
        requires
            i < self@.len(),
        ensures
            t == self@[i as int],
    {
        self.tiles[i]
    }

    /// Binary search for the first position whose id is not below `id`.
    fn lower_bound_index(&self, id: u16) -> (k: usize)
        requires
            self.wf(),
        ensures
            k == lower_bound(self@, id),
    {
        let mut lo: usize = 0;
        let mut hi: usize = self.tiles.len();
        while lo < hi
            invariant
                0 <= lo <= hi <= self@.len(),
                sorted_by_id(self@),
                forall|j: int| 0 <= j < lo ==> self@[j].id < id,
                forall|j: int| hi <= j < self@.len() ==> self@[j].id >= id,
            decreases hi - lo,
        {
            let mid: usize = lo + (hi - lo) / 2;
            if self.tiles[mid].id < id {
                lo = mid + 1;
            } else {
                hi = mid;
            }
        }
        proof {
            lemma_lower_bound_unique(self@, id, lo as int);
        }
        lo
    }

    /// Registers `tile`: replaces the entry with the same id in place, or
    /// inserts it at the position that keeps the bank sorted.
    pub fn register_tile(&mut self, tile: Tile)
        requires
            old(self).wf(),
        ensures
            final(self).wf(),
            final(self)@ == insert_sorted(old(self)@, tile),
    {
        let k = self.lower_bound_index(tile.id);
        proof {
            lemma_lower_bound(self@, tile.id);
            lemma_insert_sorted(self@, tile);
        }
        if k < self.tiles.len() && self.tiles[k].id == tile.id {
            self.tiles.set(k, tile);
        } else {
            self.tiles.insert(k, tile);
        }
    }

    /// Position of the entry with `id`, or `None` when no such entry exists.
    pub fn get_tile_index(&self, id: u16) -> (r: Option<usize>)
        requires
            self.wf(),
        ensures
            r.is_some() == has_id(self@, id),
            r matches Some(i) ==> i < self@.len() && self@[i as int].id == id,
    {
        let k = self.lower_bound_index(id);
        proof {
            lemma_lower_bound(self@, id);
        }
        if k < self.tiles.len() && self.tiles[k].id == id {
            Some(k)
        } else {
            proof {
                assert forall|i: int| 0 <= i < self@.len() implies self@[i].id != id by {
                    if i > k as int {
                        assert(self@[k as int].id < self@[i].id);
                    }
                }
            }
            None
        }
    }

    /// The tile registered under `id`, if any.
    pub fn get_tile(&self, id: u16) -> (r: Option<Tile>)
        requires
            self.wf(),
        ensures
            r.is_some() == has_id(self@, id),
            r matches Some(t) ==> t.id == id && self@.contains(t),
    {
        match self.get_tile_index(id) {
            Some(i) => Some(self.tiles[i]),
            None => None,
        }
    }
}

/// Side length of a [`TileMap16`], in cells.
pub const MAP_SIDE: usize = 16;

/// Number of cells of a [`TileMap16`].
pub const MAP_CELLS: usize = 256;

/// Flat position of cell `(x, y)`: rows follow one another, `x` moves fastest.
pub open spec fn cell_of(x: int, y: int) -> int {
    y * 16 + x
}

/// A 16 by 16 grid of tile ids placed in the world; id 0 marks an empty cell.
pub struct TileMap16 {
    /// World position of the map's corner (x, then y).
    pub world_pos: (RealBits, RealBits),
    /// Edge length of one cell in world units.
    pub tile_size: RealBits,
    /// One id per cell, in the order given by [`cell_of`].
    pub tiles: Vec<u16>,
}

impl View for TileMap16 {
    type V = Seq<u16>;

    open spec fn view(&self) -> Seq<u16> {
        self.tiles@
    }
}

impl TileMap16 {
    /// The map's invariant: exactly one id per cell.
    pub open spec fn wf(&self) -> bool {
        self@.len() == 256
    }

    /// An empty map at the origin whose cells are 16 units wide.
    pub fn new() -> (m: TileMap16)
        ensures
            m.wf(),
            forall|i: int| 0 <= i < 256 ==> m@[i] == 0,
            m.world_pos == (RealBits(0), RealBits(0)),
            m.tile_size == RealBits(0x4180_0000),
    {
        let mut tiles: Vec<u16> = Vec::new();
        let mut i: usize = 0;
        while i < MAP_CELLS
            invariant
                i <= 256,
                tiles@.len() == i,
                forall|j: int| 0 <= j < i ==> tiles@[j] == 0,
            decreases 256 - i,
        {
            tiles.push(0);
            i = i + 1;
        }
        TileMap16 { world_pos: (RealBits(0), RealBits(0)), tile_size: RealBits(0x4180_0000), tiles }
    }

    /// Flat index of cell `(x, y)`.
    pub fn cell_index(x: usize, y: usize) -> (i: usize)
        requires
            x < 16,
            y < 16,
        ensures
            i == cell_of(x as int, y as int),
            i < 256,
    {
        y * MAP_SIDE + x
    }

    /// Grid coordinates `(x, y)` of flat index `i`.
    pub fn cell_coords(i: usize) -> (c: (usize, usize))
        requires
            i < 256,
        ensures
            c.0 < 16,
            c.1 < 16,
            cell_of(c.0 as int, c.1 as int) == i,
    {
        (i % MAP_SIDE, i / MAP_SIDE)
    }

    /// Id held by the cell at flat index `i`.
    pub fn tile_at(&self, i: usize) -> (id: u16)
        requires
            self.wf(),
            i < 256,
        ensures
            id == self@[i as int],
    {
        self.tiles[i]
    }

    /// Id held by cell `(x, y)`.
    pub fn get(&self, x: usize, y: usize) -> (id: u16)
        requires
            self.wf(),
            x < 16,
            y < 16,
        ensures
            id == self@[cell_of(x as int, y as int)],
    {
        self.tiles[Self::cell_index(x, y)]
    }

    /// The cells to draw: each cell whose id is registered in `bank`, in
    /// cell order, with its flat index and its tile. Cells whose id the bank
    /// lacks (the empty id 0 among them, unless registered) are left out.
    pub fn visible_tiles(&self, bank: &TileBank) -> (r: Vec<(usize, Tile)>)
        requires
            self.wf(),
            bank.wf(),
        ensures
            r@ == drawn_cells(self@, bank@),
    {
        let mut out: Vec<(usize, Tile)> = Vec::new();
        let mut i: usize = 0;
        while i < MAP_CELLS
            invariant
                self.wf(),
                bank.wf(),
                i <= 256,
                out@ == drawn_cells(self@.subrange(0, i as int), bank@),
            decreases 256 - i,
        {
            proof {
                assert(self@.subrange(0, i as int + 1).drop_last() =~= self@.subrange(0, i as int));
            }
            match bank.get_tile(self.tiles[i]) {
                Some(t) => {
                    proof {
                        lemma_entry_by_id(bank@, t);
                    }
                    out.push((i, t));
                },
                None => {},
            }
            i = i + 1;
        }
        assert(self@.subrange(0, 256) =~= self@);
        out
    }

    /// Sets the id held by the cell at flat index `i`.
    pub fn set_at(&mut self, i: usize, id: u16)
        requires
            old(self).wf(),
            i < 256,
        ensures
            final(self).wf(),
            final(self)@ == old(self)@.update(i as int, id),
            final(self).world_pos == old(self).world_pos,
            final(self).tile_size == old(self).tile_size,
    {
        self.tiles.set(i, id);
    }

    /// Sets the id held by cell `(x, y)`.
    pub fn set(&mut self, x: usize, y: usize, id: u16)
        requires
            old(self).wf(),
            x < 16,
            y < 16,
        ensures
            final(self).wf(),
            final(self)@ == old(self)@.update(cell_of(x as int, y as int), id),
            final(self).world_pos == old(self).world_pos,
            final(self).tile_size == old(self).tile_size,
    {
        let i = Self::cell_index(x, y);
        self.set_at(i, id);
    }
}

} // verus!
