//! The world: a sparse mapping from chunk coordinates to chunks, created on
//! demand.

use vstd::prelude::*;

use crate::chunk::{Chunk, VOXEL_COUNT};
use crate::voxel::{BlockType, Voxel};

verus! {

/// The grid of a freshly created chunk: all air.
pub open spec fn air_grid() -> Seq<Voxel> {
    Seq::new(VOXEL_COUNT as nat, |i: int| Voxel { blocktype: BlockType::Air })
}

/// The chunk entries as a mapping from chunk coordinate to voxel grid; later
/// entries shadow earlier ones, so with distinct keys each entry is visible.
pub open spec fn entries_map(s: Seq<((i32, i32, i32), Chunk)>) -> Map<
    (i32, i32, i32),
    Seq<Voxel>,
>
    decreases s.len(),
{
    if s.len() == 0 {
        Map::<(i32, i32, i32), Seq<Voxel>>::empty()
    } else {
        entries_map(s.drop_last()).insert(s.last().0, s.last().1@)
    }
}

/// Entries carry pairwise distinct coordinates.
pub open spec fn distinct_keys(s: Seq<((i32, i32, i32), Chunk)>) -> bool {
    forall|i: int, j: int| 0 <= i < j < s.len() ==> (#[trigger] s[i].0) != (#[trigger] s[j].0)
}

/// The world map after a lookup-or-create at `coord`: unchanged when the
/// coordinate is already present, extended with an all-air chunk when not.
pub open spec fn lookup_or_create(
    m: Map<(i32, i32, i32), Seq<Voxel>>,
    coord: (i32, i32, i32),
) -> Map<(i32, i32, i32), Seq<Voxel>> {
    if m.contains_key(coord) {
        m
    } else {
        m.insert(coord, air_grid())
    }
}

/// A sparse collection of chunks, keyed by chunk coordinate.
pub struct World {
    entries: Vec<((i32, i32, i32), Chunk)>,
}

impl View for World {
    type V = Map<(i32, i32, i32), Seq<Voxel>>;

    closed spec fn view(&self) -> Map<(i32, i32, i32), Seq<Voxel>> {
        entries_map(self.entries@)
    }
}

/// With distinct keys, every entry is visible in the map.
proof fn lemma_entries_map_index(s: Seq<((i32, i32, i32), Chunk)>, i: int)
    requires
        distinct_keys(s),
        0 <= i < s.len(),
    ensures
        entries_map(s).contains_key(s[i].0),
        entries_map(s)[s[i].0] == s[i].1@,
    decreases s.len(),
{
    if i < s.len() - 1 {
        lemma_entries_map_index(s.drop_last(), i);
    }
}

/// A coordinate is in the map exactly when some entry carries it.
proof fn lemma_entries_map_keys(s: Seq<((i32, i32, i32), Chunk)>, coord: (i32, i32, i32))
    ensures
        entries_map(s).contains_key(coord) <==> exists|i: int|
            0 <= i < s.len() && (#[trigger] s[i].0) == coord,
    decreases s.len(),
{
    if s.len() > 0 {
        let s0 = s.drop_last();
        lemma_entries_map_keys(s0, coord);
        if coord == s.last().0 {
            assert(s[s.len() - 1].0 == coord);
        } else {
            if entries_map(s).contains_key(coord) {
                let i = choose|i: int| 0 <= i < s0.len() && (#[trigger] s0[i].0) == coord;
                assert(s[i].0 == coord);
            }
            if exists|i: int| 0 <= i < s.len() && (#[trigger] s[i].0) == coord {
                let i = choose|i: int| 0 <= i < s.len() && (#[trigger] s[i].0) == coord;
                assert(s0[i].0 == coord);
            }
        }
    }
}

/// Appending an entry inserts it into the map.
proof fn lemma_entries_map_push(
    s: Seq<((i32, i32, i32), Chunk)>,
    coord: (i32, i32, i32),
    c: Chunk,
)
    ensures
        entries_map(s.push((coord, c))) == entries_map(s).insert(coord, c@),
{
    let t = s.push((coord, c));
    assert(t.drop_last() =~= s);
    assert(t.last() == (coord, c));
}

/// Replacing the chunk of entry `i`, key kept, re-inserts it into the map.
proof fn lemma_entries_map_update(s: Seq<((i32, i32, i32), Chunk)>, i: int, c: Chunk)
    requires
        distinct_keys(s),
        0 <= i < s.len(),
    ensures
        entries_map(s.update(i, (s[i].0, c))) == entries_map(s).insert(s[i].0, c@),
    decreases s.len(),
{
    let k = s[i].0;
    let t = s.update(i, (k, c));
    if i == s.len() - 1 {
        assert(t.drop_last() =~= s.drop_last());
        assert(entries_map(s).insert(k, c@) =~= entries_map(s.drop_last()).insert(k, c@));
        assert(entries_map(t) =~= entries_map(s.drop_last()).insert(k, c@));
    } else {
        assert(t.drop_last() =~= s.drop_last().update(i, (k, c)));
        lemma_entries_map_update(s.drop_last(), i, c);
        assert(t.last() == s.last());
        assert(k != s.last().0);
        assert(entries_map(t) =~= entries_map(s).insert(k, c@));
    }
}

impl World {
    /// Every stored chunk is a full grid, and no coordinate is stored twice.
    pub closed spec fn wf(self) -> bool {
        &&& distinct_keys(self.entries@)
        &&& forall|i: int| 0 <= i < self.entries@.len() ==> (#[trigger] self.entries@[i]).1.wf()
    }

    /// A world starts with no chunks.
    pub fn new() -> (w: World)
        ensures
            w.wf(),
            w@ == Map::<(i32, i32, i32), Seq<Voxel>>::empty(),
    {
        World { entries: Vec::new() }
    }

    /// Index of the entry carrying `coord`, if any.
    fn find_index(&self, coord: (i32, i32, i32)) -> (r: Option<usize>)
        ensures
            match r {
                Some(i) => i < self.entries@.len() && self.entries@[i as int].0 == coord,
                None => forall|i: int|
                    0 <= i < self.entries@.len() ==> (#[trigger] self.entries@[i].0) != coord,
            },
    {
        let mut i: usize = 0;
        let n = self.entries.len();
        while i < n
            invariant
                n == self.entries@.len(),
                i <= n,
                forall|k: int| 0 <= k < i ==> (#[trigger] self.entries@[k].0) != coord,
            decreases n - i,
        {
            let e = &self.entries[i];
            if e.0.0 == coord.0 && e.0.1 == coord.1 && e.0.2 == coord.2 {
                return Some(i);
            }
            i += 1;
        }
        None
    }

    /// Whether a chunk exists at `coord`.
    pub fn contains_chunk(&self, coord: (i32, i32, i32)) -> (r: bool)
        ensures
            r == self@.contains_key(coord),
    {
        proof {
            lemma_entries_map_keys(self.entries@, coord);
        }
        match self.find_index(coord) {
            Some(_) => true,
            None => false,
        }
    }

    /// Read-only access to the chunk at `coord`, if one exists.
    pub fn chunk_at(&self, coord: (i32, i32, i32)) -> (r: Option<&Chunk>)
        requires
            self.wf(),
        ensures
            r is Some <==> self@.contains_key(coord),
            r matches Some(c) ==> c.wf() && c@ == self@[coord],
    {
        proof {
            lemma_entries_map_keys(self.entries@, coord);
        }
        match self.find_index(coord) {
            Some(i) => {
                proof {
                    lemma_entries_map_index(self.entries@, i as int);
                }
                Some(&self.entries[i].1)
            },
            None => None,
        }
    }

    /// Exclusive access to the chunk at `coord`; a coordinate seen for the
    /// first time gets a fresh all-air chunk. Looking the same coordinate up
    /// again yields the same chunk, with every mutation made through the
    /// returned reference.
    pub fn get_or_create_chunk(&mut self, coord: (i32, i32, i32)) -> (ret: &mut Chunk)
        requires
            old(self).wf(),
        ensures
            (*ret).wf(),
            (*ret)@ == lookup_or_create(old(self)@, coord)[coord],
            final(self)@ == lookup_or_create(old(self)@, coord).insert(coord, (*final(ret))@),
            (*final(ret)).wf() ==> final(self).wf(),
    {
        proof {
            lemma_entries_map_keys(self.entries@, coord);
        }
        let idx: usize;
        match self.find_index(coord) {
            Some(i) => {
                idx = i;
            },
            None => {
                let c = Chunk::new();
                proof {
                    assert(c@ =~= air_grid());
                    lemma_entries_map_push(self.entries@, coord, c);
                }
                idx = self.entries.len();
                self.entries.push((coord, c));
            },
        }
        proof {
            let mid = self.entries@;
            assert(distinct_keys(mid));
            lemma_entries_map_index(mid, idx as int);
            assert(entries_map(mid) == lookup_or_create(old(self)@, coord)) by {
                if old(self)@.contains_key(coord) {
                } else {
                    assert(entries_map(mid) =~= lookup_or_create(old(self)@, coord));
                }
            }
            assert forall|c: Chunk| #[trigger] entries_map(mid.update(idx as int, (coord, c)))
                == entries_map(mid).insert(coord, c@) by {
                lemma_entries_map_update(mid, idx as int, c);
            }
            assert forall|c: Chunk| c.wf() implies distinct_keys(
                #[trigger] mid.update(idx as int, (coord, c)),
            ) && (forall|i: int|
                0 <= i < mid.update(idx as int, (coord, c)).len() ==> (#[trigger] mid.update(
                    idx as int,
                    (coord, c),
                )[i]).1.wf()) by {
                let t = mid.update(idx as int, (coord, c));
                assert forall|i: int, j: int| 0 <= i < j < t.len() implies (#[trigger] t[i].0)
                    != (#[trigger] t[j].0) by {
                    assert(mid[i].0 == t[i].0);
                    assert(mid[j].0 == t[j].0);
                }
            }
        }
        let e = &mut self.entries[idx];
        &mut e.1
    }
}

/// Lookup-or-create is idempotent: a second lookup at the same coordinate
/// finds the chunk the first one returned and changes nothing; and a chunk
/// stored at the coordinate in between is exactly what the second lookup
/// sees.
pub proof fn lemma_lookup_or_create_idempotent(
    m: Map<(i32, i32, i32), Seq<Voxel>>,
    coord: (i32, i32, i32),
    grid: Seq<Voxel>,
)
    ensures
        lookup_or_create(m, coord).contains_key(coord),
        lookup_or_create(lookup_or_create(m, coord), coord) == lookup_or_create(m, coord),
        lookup_or_create(m.insert(coord, grid), coord) == m.insert(coord, grid),
        lookup_or_create(m.insert(coord, grid), coord)[coord] == grid,
{
}

} // verus!
