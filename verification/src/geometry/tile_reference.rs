//! Hierarchical tile addresses and the edge-walk between neighbouring tiles.
//!
//! An address stores a finite chain of species `[s0, s1, ...]`: the tile is
//! `s0`, living inside a level-1 tile `s1`, and so on. Beyond the stored
//! prefix the chain continues implicitly with the deflation pattern. The
//! stored form is kept canonical: a trailing entry equal to the pattern
//! default of its level is never stored, and every adjacent pair respects
//! the containment rule.

use vstd::prelude::*;

use crate::geometry::rhomb::{
    can_fit, external_edge_spec, internal_edge_spec, pattern_at, pattern_tile, AbsoluteDirection,
    EdgeEntry, RhombTiling, Tile,
};
use crate::geometry::tiling::{EdgeDefinitionType, RelativeDirection};

verus! {

/// Error raised when a parent/child species pair is forbidden by the
/// containment rule.
#[derive(Copy, Clone, PartialEq, Eq, Debug, Hash, Structural)]
pub struct CoordinateTraversalError {
    pub inner_tile: Tile,
    pub outer_tile: Tile,
}

/// The species at level `i` of the stored chain `s`, extended past the end
/// by the deflation pattern.
pub open spec fn ext_at(s: Seq<Tile>, i: int) -> Tile {
    if 0 <= i < s.len() {
        s[i]
    } else {
        pattern_at(i)
    }
}

/// A stored chain is canonical when its last entry is not the pattern
/// default of its level.
pub open spec fn is_canonical(s: Seq<Tile>) -> bool {
    s.len() == 0 || s[s.len() - 1] != pattern_at(s.len() - 1)
}

/// Every adjacent pair of the extended chain respects containment.
pub open spec fn is_valid(s: Seq<Tile>) -> bool {
    forall|i: int| 0 <= i ==> #[trigger] can_fit(ext_at(s, i), ext_at(s, i + 1))
}

/// Drops stored entries from the tail while they equal the pattern default
/// of their level.
pub open spec fn strip_trailing(s: Seq<Tile>) -> Seq<Tile>
    decreases s.len(),
{
    if s.len() > 0 && s[s.len() - 1] == pattern_at(s.len() - 1) {
        strip_trailing(s.drop_last())
    } else {
        s
    }
}

/// The chain extended with pattern defaults to length at least `n`.
pub open spec fn grow_to(s: Seq<Tile>, n: int) -> Seq<Tile> {
    if s.len() >= n {
        s
    } else {
        Seq::new(n as nat, |i: int| ext_at(s, i))
    }
}

/// Writing `t` at level `i` of the extended chain, restored to canonical
/// stored form.
pub open spec fn set_ext(s: Seq<Tile>, i: int, t: Tile) -> Seq<Tile>
    recommends
        i >= 0,
{
    strip_trailing(grow_to(s, i + 1).update(i, t))
}

/// The first containment violation of the stored chain at or after level
/// `from`, if any, as the error it raises.
pub open spec fn validate_from(s: Seq<Tile>, from: int) -> Option<CoordinateTraversalError>
    decreases s.len() - from,
{
    if from < 0 || from >= s.len() {
        None
    } else if !can_fit(s[from], ext_at(s, from + 1)) {
        Some(CoordinateTraversalError { inner_tile: s[from], outer_tile: ext_at(s, from + 1) })
    } else {
        validate_from(s, from + 1)
    }
}

/// Adjacent pattern defaults always nest: the deflation chain itself is
/// valid at every level.
pub proof fn lemma_pattern_chain(i: int)
    requires
        i >= 0,
    ensures
        can_fit(pattern_at(i), pattern_at(i + 1)),
{
    assert(0 <= i % 6 < 6) by (nonlinear_arith)
        requires
            i >= 0,
    ;
    assert((i + 1) % 6 == if i % 6 == 5 { 0int } else { i % 6 + 1 }) by (nonlinear_arith)
        requires
            i >= 0,
    ;
}

/// Stripping preserves the extended chain at every level.
pub proof fn lemma_strip_ext(s: Seq<Tile>)
    ensures
        forall|i: int| ext_at(strip_trailing(s), i) == ext_at(s, i),
        strip_trailing(s).len() <= s.len(),
    decreases s.len(),
{
    if s.len() > 0 && s[s.len() - 1] == pattern_at(s.len() - 1) {
        lemma_strip_ext(s.drop_last());
        assert forall|i: int| ext_at(s.drop_last(), i) == ext_at(s, i) by {
            if i == s.len() - 1 {
                assert(ext_at(s.drop_last(), i) == pattern_at(i));
            }
        }
    }
}

/// Stripping yields a canonical chain.
pub proof fn lemma_strip_canonical(s: Seq<Tile>)
    ensures
        is_canonical(strip_trailing(s)),
    decreases s.len(),
{
    if s.len() > 0 && s[s.len() - 1] == pattern_at(s.len() - 1) {
        lemma_strip_canonical(s.drop_last());
    }
}

/// Validity of the stored prefix gives validity of the whole extended
/// chain.
pub proof fn lemma_prefix_valid(s: Seq<Tile>)
    requires
        validate_from(s, 0) is None,
    ensures
        is_valid(s),
{
    assert forall|i: int| 0 <= i implies #[trigger] can_fit(ext_at(s, i), ext_at(s, i + 1)) by {
        if i < s.len() {
            lemma_validate_all(s, 0, i);
        } else {
            lemma_pattern_chain(i);
        }
    }
}

/// If no violation is reported from `from`, every pair at or after `from`
/// fits.
proof fn lemma_validate_all(s: Seq<Tile>, from: int, i: int)
    requires
        0 <= from <= i < s.len(),
        validate_from(s, from) is None,
    ensures
        can_fit(s[i], ext_at(s, i + 1)),
    decreases i - from,
{
    if from < i {
        lemma_validate_all(s, from + 1, i);
    }
}

/// What `set_ext` reads back at each level: the written species at `i`,
/// the old extended chain everywhere else.
pub proof fn lemma_set_ext_at(s: Seq<Tile>, i: int, t: Tile)
    requires
        i >= 0,
    ensures
        ext_at(set_ext(s, i, t), i) == t,
        forall|j: int| j != i ==> ext_at(set_ext(s, i, t), j) == ext_at(s, j),
        is_canonical(set_ext(s, i, t)),
{
    let g = grow_to(s, i + 1).update(i, t);
    lemma_strip_ext(g);
    lemma_strip_canonical(g);
    assert forall|j: int| j != i implies ext_at(g, j) == ext_at(s, j) by {
        if 0 <= j < g.len() {
            if s.len() >= i + 1 {
            } else {
                assert(g[j] == ext_at(s, j));
            }
        }
    }
    assert(ext_at(g, i) == t);
}

/// A hierarchical tile address in canonical stored form. The view is the
/// stored chain of species, innermost first.
#[derive(Clone, PartialEq, Eq, Debug, Hash)]
pub struct TileReference(Vec<Tile>);

impl View for TileReference {
    type V = Seq<Tile>;

    closed spec fn view(&self) -> Seq<Tile> {
        self.0@
    }
}

impl TileReference {
    /// The stored chain is canonical and the extended chain respects
    /// containment everywhere.
    pub open spec fn wf(&self) -> bool {
        is_canonical(self@) && is_valid(self@)
    }

    /// Validates and canonicalises a stored chain. Fails with the first
    /// containment violation, read innermost first.
    pub fn new(tiles: Vec<Tile>) -> (r: Result<TileReference, CoordinateTraversalError>)
        ensures
            match r {
                Ok(c) => {
                    &&& validate_from(strip_trailing(tiles@), 0) is None
                    &&& c@ == strip_trailing(tiles@)
                    &&& c.wf()
                },
                Err(e) => validate_from(strip_trailing(tiles@), 0) == Some(e),
            },
    {
        let mut item = TileReference(tiles);
        match item.normalize() {
            Ok(()) => Ok(item),
            Err(e) => Err(e),
        }
    }

    /// Number of stored (canonical) levels.
    pub fn len(&self) -> (r: usize)
        ensures
            r == self@.len(),
    {
        self.0.len()
    }

    /// The species at level `index`, with the implicit pattern extension
    /// past the stored prefix.
    pub fn get_at(&self, index: usize) -> (r: Tile)
        ensures
            r == ext_at(self@, index as int),
    {
        if index < self.0.len() {
            self.0[index]
        } else {
            pattern_tile(index)
        }
    }

    /// Copies the stored chain.
    fn clone_tiles(&self) -> (r: Vec<Tile>)
        ensures
            r@ == self@,
    {
        let mut out: Vec<Tile> = Vec::new();
        let mut i: usize = 0;
        while i < self.0.len()
            invariant
                i <= self.0.len(),
                out@ == self.0@.subrange(0, i as int),
            decreases self.0.len() - i,
        {
            out.push(self.0[i]);
            proof {
                assert(out@ =~= self.0@.subrange(0, i + 1));
            }
            i = i + 1;
        }
        proof {
            assert(out@ =~= self.0@);
        }
        out
    }

    /// Structural equality of the stored chains; on canonical addresses
    /// this coincides with denoting the same tile.
    pub fn same_as(&self, other: &TileReference) -> (r: bool)
        ensures
            r <==> self@ == other@,
    {
        if self.0.len() != other.0.len() {
            proof {
                assert(self@ != other@);
            }
            return false;
        }
        let mut i: usize = 0;
        while i < self.0.len()
            invariant
                i <= self.0.len(),
                self.0.len() == other.0.len(),
                forall|j: int| 0 <= j < i ==> self.0@[j] == other.0@[j],
            decreases self.0.len() - i,
        {
            if self.0[i] != other.0[i] {
                return false;
            }
            i = i + 1;
        }
        proof {
            assert(self@ =~= other@);
        }
        true
    }

    /// True when the last stored entry equals the pattern default of its
    /// level, i.e. when one more entry can be stripped.
    fn trailing_default(&self) -> (r: bool)
        ensures
            r <==> !is_canonical(self.0@),
    {
        self.0.len() > 0 && self.0[self.0.len() - 1] == pattern_tile(self.0.len() - 1)
    }

    /// Pops trailing pattern defaults, then validates every stored pair
    /// against its outer neighbour.
    fn normalize(&mut self) -> (r: Result<(), CoordinateTraversalError>)
        ensures
            final(self)@ == strip_trailing(old(self)@),
            match r {
                Ok(()) => validate_from(strip_trailing(old(self)@), 0) is None && final(self).wf(),
                Err(e) => validate_from(strip_trailing(old(self)@), 0) == Some(e),
            },
    {
        let ghost orig = self.0@;
        while self.trailing_default()
            invariant
                strip_trailing(self.0@) == strip_trailing(orig),
            decreases self.0.len(),
        {
            proof {
                assert(strip_trailing(self.0@) == strip_trailing(self.0@.drop_last()));
            }
            let _ = self.0.pop();
        }
        proof {
            assert(strip_trailing(self.0@) == self.0@);
        }
        let ghost stripped = self.0@;
        let mut i: usize = 0;
        while i < self.0.len()
            invariant
                self.0@ == stripped,
                stripped == strip_trailing(old(self)@),
                is_canonical(stripped),
                i <= self.0.len(),
                validate_from(stripped, 0) == validate_from(stripped, i as int),
            decreases self.0.len() - i,
        {
            let next_tile: Tile = if i + 1 < self.0.len() {
                self.0[i + 1]
            } else {
                pattern_tile(i + 1)
            };
            proof {
                assert(next_tile == ext_at(stripped, i + 1));
            }
            match RhombTiling::can_tile_fit_in_tile(self.0[i], next_tile) {
                Ok(()) => {},
                Err(e) => {
                    proof {
                        assert(validate_from(stripped, i as int) == Some(e));
                    }
                    return Err(e);
                },
            }
            i = i + 1;
        }
        proof {
            lemma_prefix_valid(stripped);
        }
        Ok(())
    }

    /// Writes `tile` at level `index` without checking containment, growing
    /// the stored chain with pattern defaults as needed and re-stripping
    /// the tail afterwards.
    fn set_at_unchecked(&mut self, index: usize, tile: Tile)
        requires
            index < usize::MAX,
        ensures
            final(self)@ == set_ext(old(self)@, index as int, tile),
    {
        let ghost orig = self.0@;
        while index >= self.0.len()
            invariant
                index < usize::MAX,
                self.0@ == grow_to(orig, self.0@.len() as int),
                self.0@.len() <= index + 1 || self.0@ == orig,
            decreases index + 1 - self.0.len(),
        {
            let t = pattern_tile(self.0.len());
            proof {
                assert(ext_at(orig, self.0@.len() as int) == t);
            }
            self.0.push(t);
            proof {
                assert(self.0@ =~= grow_to(orig, self.0@.len() as int));
            }
        }
        proof {
            assert(self.0@ =~= grow_to(orig, index + 1));
        }
        self.0.set(index, tile);
        let ghost written = self.0@;
        proof {
            assert(written == grow_to(orig, index + 1).update(index as int, tile));
        }
        while self.trailing_default()
            invariant
                strip_trailing(self.0@) == strip_trailing(written),
            decreases self.0.len(),
        {
            proof {
                assert(strip_trailing(self.0@) == strip_trailing(self.0@.drop_last()));
            }
            let _ = self.0.pop();
        }
        proof {
            assert(strip_trailing(self.0@) == self.0@);
        }
    }

    /// Writes `tile` at level `index` after checking containment against
    /// both neighbours in the extended chain. On success the address stays
    /// canonical and valid; on failure it is unchanged and the error names
    /// the offending pair.
    pub fn set_at(&mut self, index: usize, tile: Tile) -> (r: Result<
        (),
        CoordinateTraversalError,
    >)
        requires
            old(self).wf(),
            index < usize::MAX,
        ensures
            match r {
                Ok(()) => {
                    &&& index > 0 ==> can_fit(ext_at(old(self)@, index - 1), tile)
                    &&& can_fit(tile, ext_at(old(self)@, index + 1))
                    &&& final(self)@ == set_ext(old(self)@, index as int, tile)
                    &&& final(self).wf()
                },
                Err(e) => {
                    &&& final(self)@ == old(self)@
                    &&& if index > 0 && !can_fit(ext_at(old(self)@, index - 1), tile) {
                        e == (CoordinateTraversalError {
                            inner_tile: ext_at(old(self)@, index - 1),
                            outer_tile: tile,
                        })
                    } else {
                        !can_fit(tile, ext_at(old(self)@, index + 1)) && e
                            == (CoordinateTraversalError {
                            inner_tile: tile,
                            outer_tile: ext_at(old(self)@, index + 1),
                        })
                    }
                },
            },
    {
        if index > 0 {
            match RhombTiling::can_tile_fit_in_tile(self.get_at(index - 1), tile) {
                Ok(()) => {},
                Err(e) => {
                    return Err(e);
                },
            }
        }
        match RhombTiling::can_tile_fit_in_tile(tile, self.get_at(index + 1)) {
            Ok(()) => {},
            Err(e) => {
                return Err(e);
            },
        }
        let ghost orig = self.0@;
        self.set_at_unchecked(index, tile);
        proof {
            lemma_set_ext_at(orig, index as int, tile);
            assert forall|i: int| 0 <= i implies #[trigger] can_fit(
                ext_at(self@, i),
                ext_at(self@, i + 1),
            ) by {
                if i + 1 < index || i > index {
                    assert(can_fit(ext_at(orig, i), ext_at(orig, i + 1)));
                } else if i == index {
                    assert(ext_at(self@, i) == tile);
                    assert(ext_at(self@, i + 1) == ext_at(orig, i + 1));
                } else {
                    assert(i == index - 1);
                    assert(ext_at(self@, i) == ext_at(orig, i));
                    assert(ext_at(self@, i + 1) == tile);
                }
            }
        }
        Ok(())
    }
}

/// One intermediate state of the edge-walk: the partially rewritten address,
/// the level the walk currently works at, the pending edge-table entry, and
/// the stack of inverted side lists accumulated while climbing.
pub struct WalkState {
    pub addr: Seq<Tile>,
    pub index: nat,
    pub entry: EdgeEntry,
    pub sides: Seq<Seq<RelativeDirection>>,
}

/// The effect of resolving one pending entry.
pub enum WalkStep {
    /// The walk landed in the neighbouring tile: its address and the
    /// direction it was entered from.
    Done(Seq<Tile>, AbsoluteDirection),
    /// The tables have no entry for the pending lookup; only inconsistent
    /// tables can reach this.
    Fail,
    Next(WalkState),
}

/// What a bounded run of the walk produces.
pub enum WalkOutcome {
    Arrived(Seq<Tile>, AbsoluteDirection),
    Stuck,
    OutOfFuel,
}

/// All side markers mirrored; crossing an edge swaps the walker's left and
/// right.
pub open spec fn invert_all(side: Seq<RelativeDirection>) -> Seq<RelativeDirection> {
    side.map_values(|r: RelativeDirection| r.invert_spec())
}

/// The initial state of the walk leaving `addr` through `direction`.
pub open spec fn walk_start(addr: Seq<Tile>, direction: AbsoluteDirection) -> WalkState {
    WalkState {
        addr,
        index: 0,
        entry: internal_edge_spec(ext_at(addr, 0), direction),
        sides: seq![],
    }
}

/// Resolves the pending entry of `s`: an `Inside` landing writes the child
/// and either finishes (at level 0) or descends through the external table
/// with the topmost saved sides; an `Outside` exit climbs one level,
/// saving the inverted sides.
pub open spec fn walk_step(s: WalkState) -> WalkStep {
    match s.entry.0 {
        EdgeDefinitionType::Inside(t, d) => {
            let addr2 = set_ext(s.addr, s.index as int, t);
            if s.index == 0 {
                WalkStep::Done(addr2, d)
            } else if s.sides.len() == 0 {
                WalkStep::Fail
            } else {
                match external_edge_spec(t, d, s.sides.last()) {
                    None => WalkStep::Fail,
                    Some(entry2) => WalkStep::Next(
                        WalkState {
                            addr: addr2,
                            index: (s.index - 1) as nat,
                            entry: entry2,
                            sides: s.sides.drop_last(),
                        },
                    ),
                }
            }
        },
        EdgeDefinitionType::Outside(d) => WalkStep::Next(
            WalkState {
                addr: s.addr,
                index: s.index + 1,
                entry: internal_edge_spec(ext_at(s.addr, s.index as int + 1), d),
                sides: s.sides.push(invert_all(s.entry.1)),
            },
        ),
    }
}

/// Runs the walk for at most `fuel` resolutions.
pub open spec fn walk_run(s: WalkState, fuel: nat) -> WalkOutcome
    decreases fuel,
{
    if fuel == 0 {
        WalkOutcome::OutOfFuel
    } else {
        match walk_step(s) {
            WalkStep::Done(a, d) => WalkOutcome::Arrived(a, d),
            WalkStep::Fail => WalkOutcome::Stuck,
            WalkStep::Next(s2) => walk_run(s2, (fuel - 1) as nat),
        }
    }
}

/// The resolution budget granted to a walk from `addr`: generous for any
/// consistent set of tables, whose walks stay within a few levels of the
/// stored chain.
pub open spec fn go_fuel(addr: Seq<Tile>) -> nat {
    if 2 * addr.len() + 200 <= usize::MAX {
        (2 * addr.len() + 200) as nat
    } else {
        usize::MAX as nat
    }
}

/// The complete edge-walk: what `go` computes.
pub open spec fn go_spec(addr: Seq<Tile>, direction: AbsoluteDirection) -> WalkOutcome {
    walk_run(walk_start(addr, direction), go_fuel(addr))
}

/// An address an edge-walk arrives at is canonical.
pub proof fn lemma_walk_arrived_canonical(s: WalkState, fuel: nat)
    ensures
        walk_run(s, fuel) matches WalkOutcome::Arrived(a, d) ==> is_canonical(a),
    decreases fuel,
{
    if fuel > 0 {
        match walk_step(s) {
            WalkStep::Done(a, d) => {
                match s.entry.0 {
                    EdgeDefinitionType::Inside(t, d2) => {
                        lemma_set_ext_at(s.addr, s.index as int, t);
                    },
                    EdgeDefinitionType::Outside(_) => {},
                }
            },
            WalkStep::Fail => {},
            WalkStep::Next(s2) => {
                lemma_walk_arrived_canonical(s2, (fuel - 1) as nat);
            },
        }
    }
}

/// The deep view of the saved side stack.
pub open spec fn sides_view(sides: Seq<Vec<RelativeDirection>>) -> Seq<Seq<RelativeDirection>> {
    sides.map_values(|v: Vec<RelativeDirection>| v@)
}

/// Mirrors every side marker of `side`.
fn invert_sides(side: &Vec<RelativeDirection>) -> (r: Vec<RelativeDirection>)
    ensures
        r@ == invert_all(side@),
{
    let mut out: Vec<RelativeDirection> = Vec::new();
    let mut i: usize = 0;
    while i < side.len()
        invariant
            i <= side.len(),
            out@ == invert_all(side@).subrange(0, i as int),
        decreases side.len() - i,
    {
        out.push(side[i].invert());
        proof {
            assert(out@ =~= invert_all(side@).subrange(0, i + 1));
        }
        i = i + 1;
    }
    proof {
        assert(out@ =~= invert_all(side@));
    }
    out
}

impl TileReference {
    /// Crosses the edge of this tile that faces `edge`: returns the
    /// neighbouring tile's address together with the direction the walk
    /// entered it from. The result is exactly what the bounded walk
    /// [`go_spec`] computes; an error is only possible where the walk gets
    /// stuck or exhausts its budget, which consistent tables never allow.
    pub fn go(&self, edge: AbsoluteDirection) -> (r: Result<
        (TileReference, AbsoluteDirection),
        CoordinateTraversalError,
    >)
        ensures
            match go_spec(self@, edge) {
                WalkOutcome::Arrived(a, d) => {
                    &&& r matches Ok(p) && p.0@ == a && p.1 == d
                    &&& is_canonical(a)
                },
                WalkOutcome::Stuck => r is Err,
                WalkOutcome::OutOfFuel => r is Err,
            },
    {
        let mut copy = TileReference(self.clone_tiles());
        let mut entry = RhombTiling::get_internal_edge_definition(self.get_at(0), edge);
        let mut sides: Vec<Vec<RelativeDirection>> = Vec::new();
        let mut index: usize = 0;
        let len = self.0.len();
        let mut fuel: usize = if len <= (usize::MAX - 200) / 2 {
            2 * len + 200
        } else {
            usize::MAX
        };
        proof {
            assert(fuel as nat == go_fuel(self@));
            assert(sides_view(sides@) =~= Seq::<Seq<RelativeDirection>>::empty());
        }
        loop
            invariant
                index + fuel <= go_fuel(self@),
                walk_run(walk_start(self@, edge), go_fuel(self@)) == walk_run(
                    WalkState {
                        addr: copy@,
                        index: index as nat,
                        entry: (entry.edge_type, entry.direction@),
                        sides: sides_view(sides@),
                    },
                    fuel as nat,
                ),
            decreases fuel,
        {
            let ghost cur = WalkState {
                addr: copy@,
                index: index as nat,
                entry: (entry.edge_type, entry.direction@),
                sides: sides_view(sides@),
            };
            if fuel == 0 {
                return Err(CoordinateTraversalError { inner_tile: Tile::A, outer_tile: Tile::A });
            }
            match entry.edge_type {
                EdgeDefinitionType::Inside(t, d) => {
                    copy.set_at_unchecked(index, t);
                    if index == 0 {
                        proof {
                            assert(walk_step(cur) == WalkStep::Done(copy@, d));
                            lemma_walk_arrived_canonical(
                                walk_start(self@, edge),
                                go_fuel(self@),
                            );
                        }
                        return Ok((copy, d));
                    }
                    let side = match sides.pop() {
                        Some(side) => side,
                        None => {
                            proof {
                                assert(sides_view(sides@).len() == 0);
                                assert(walk_step(cur) == WalkStep::Fail);
                            }
                            return Err(
                                CoordinateTraversalError { inner_tile: t, outer_tile: t },
                            );
                        },
                    };
                    proof {
                        assert(side@ == cur.sides.last());
                        assert(sides_view(sides@) =~= cur.sides.drop_last());
                    }
                    match RhombTiling::get_external_edge_definition(t, d, side) {
                        Some(next_entry) => {
                            proof {
                                assert(walk_step(cur) matches WalkStep::Next(s2)
                                    && s2.addr == copy@
                                    && s2.index == index - 1
                                    && s2.entry == (next_entry.edge_type, next_entry.direction@)
                                    && s2.sides == sides_view(sides@));
                            }
                            entry = next_entry;
                            index = index - 1;
                        },
                        None => {
                            proof {
                                assert(walk_step(cur) == WalkStep::Fail);
                            }
                            return Err(
                                CoordinateTraversalError { inner_tile: t, outer_tile: t },
                            );
                        },
                    }
                },
                EdgeDefinitionType::Outside(d) => {
                    let inverted = invert_sides(&entry.direction);
                    sides.push(inverted);
                    index = index + 1;
                    let next_entry = RhombTiling::get_internal_edge_definition(
                        copy.get_at(index),
                        d,
                    );
                    proof {
                        assert(sides_view(sides@) =~= cur.sides.push(invert_all(cur.entry.1)));
                        assert(walk_step(cur) matches WalkStep::Next(s2)
                            && s2.addr == copy@
                            && s2.index == index as nat
                            && s2.entry == (next_entry.edge_type, next_entry.direction@)
                            && s2.sides == sides_view(sides@));
                    }
                    entry = next_entry;
                },
            }
            fuel = fuel - 1;
        }
    }
}

/// Two canonical chains with the same extended denotation are the same
/// stored chain: addresses that name the same tile compare equal.
pub proof fn lemma_same_denotation_equal(a: Seq<Tile>, b: Seq<Tile>)
    requires
        is_canonical(a),
        is_canonical(b),
        forall|i: int| ext_at(a, i) == ext_at(b, i),
    ensures
        a == b,
{
    if a.len() < b.len() {
        let j = b.len() - 1;
        assert(ext_at(a, j) == pattern_at(j));
        assert(ext_at(b, j) == b[j]);
        assert(false);
    } else if b.len() < a.len() {
        let j = a.len() - 1;
        assert(ext_at(b, j) == pattern_at(j));
        assert(ext_at(a, j) == a[j]);
        assert(false);
    } else {
        assert forall|i: int| 0 <= i < a.len() implies a[i] == b[i] by {
            assert(ext_at(a, i) == a[i]);
            assert(ext_at(b, i) == b[i]);
        }
        assert(a =~= b);
    }
}

/// The species that follows `t` in enumeration order, if any.
pub open spec fn tile_succ(t: Tile) -> Option<Tile> {
    match t {
        Tile::A => Some(Tile::B),
        Tile::B => Some(Tile::C),
        Tile::C => Some(Tile::D),
        Tile::D => Some(Tile::E),
        Tile::E => None,
    }
}

/// One run of the enumeration counter: repeatedly increment the stored
/// chain as a place-value counter over the species alphabet (least level
/// first, growing with pattern defaults on carry past the end), until the
/// incremented chain is a valid address; that address, canonicalised, is
/// the result. `None` when the budget runs out first.
pub open spec fn next_run(digits: Seq<Tile>, index: nat, fuel: nat) -> Option<Seq<Tile>>
    decreases fuel,
{
    if fuel == 0 {
        None
    } else {
        let d = grow_to(digits, index as int + 1);
        match tile_succ(d[index as int]) {
            Some(t2) => {
                let d2 = d.update(index as int, t2);
                if validate_from(strip_trailing(d2), 0) is None {
                    Some(strip_trailing(d2))
                } else {
                    next_run(d2, 0, (fuel - 1) as nat)
                }
            },
            None => next_run(d.update(index as int, Tile::A), index + 1, (fuel - 1) as nat),
        }
    }
}

/// The counter budget granted to one enumeration step.
pub open spec fn next_fuel(addr: Seq<Tile>) -> nat {
    if addr.len() + 1000000 <= usize::MAX {
        (addr.len() + 1000000) as nat
    } else {
        usize::MAX as nat
    }
}

/// The canonical enumeration successor: what `next` computes.
pub open spec fn next_spec(addr: Seq<Tile>) -> Option<Seq<Tile>> {
    next_run(addr, 0, next_fuel(addr))
}

/// Error raised while parsing an address from text: the position of the
/// offence and its kind.
#[derive(Copy, Clone, PartialEq, Eq, Debug, Hash, Structural)]
pub struct CoordinateParsingError {
    pub index: usize,
    pub kind: CoordinateParsingErrorKind,
}

#[derive(Copy, Clone, PartialEq, Eq, Debug, Hash, Structural)]
pub enum CoordinateParsingErrorKind {
    /// The characters parse, but the chain violates containment.
    TraversalError(CoordinateTraversalError),
    /// The character names no tile species.
    ParseError(char),
}

/// Every character of `s` names a tile species.
pub open spec fn chars_all_tiles(s: Seq<char>) -> bool {
    forall|i: int| 0 <= i < s.len() ==> #[trigger] Tile::from_char_spec(s[i]) is Some
}

/// The chain named by a sequence of species characters.
pub open spec fn tiles_from_chars(s: Seq<char>) -> Seq<Tile> {
    Seq::new(s.len(), |i: int| Tile::from_char_spec(s[i])->Some_0)
}

impl TileReference {
    /// The canonical enumeration successor of this address. Interprets the
    /// stored chain as a place-value counter, increments it, and skips
    /// every chain that violates containment; see [`next_spec`]. Where the
    /// counter budget runs out (no consistent containment rule allows it),
    /// the address itself is returned.
    pub fn next(&self) -> (r: TileReference)
        ensures
            match next_spec(self@) {
                Some(a) => r@ == a && r.wf(),
                None => r@ == self@,
            },
    {
        let mut digits = self.clone_tiles();
        let mut index: usize = 0;
        let len = digits.len();
        let mut fuel: usize = if len <= usize::MAX - 1000000 {
            len + 1000000
        } else {
            usize::MAX
        };
        proof {
            assert(fuel as nat == next_fuel(self@));
        }
        loop
            invariant
                digits@.len() >= index,
                next_spec(self@) == next_run(digits@, index as nat, fuel as nat),
            decreases fuel,
        {
            let ghost d0 = digits@;
            if fuel == 0 {
                return TileReference(self.clone_tiles());
            }
            if digits.len() <= index {
                let t = pattern_tile(digits.len());
                digits.push(t);
            }
            proof {
                assert(digits@ =~= grow_to(d0, index as int + 1));
            }
            let t = digits[index];
            let succ: Option<Tile> = match t {
                Tile::A => Some(Tile::B),
                Tile::B => Some(Tile::C),
                Tile::C => Some(Tile::D),
                Tile::D => Some(Tile::E),
                Tile::E => None,
            };
            match succ {
                Some(t2) => {
                    digits.set(index, t2);
                    let candidate = TileReference::new(clone_tile_vec(&digits));
                    match candidate {
                        Ok(c) => {
                            return c;
                        },
                        Err(_) => {
                            index = 0;
                        },
                    }
                },
                None => {
                    digits.set(index, Tile::A);
                    index = index + 1;
                },
            }
            fuel = fuel - 1;
        }
    }

    /// A structural copy of the address.
    pub fn duplicate(&self) -> (r: TileReference)
        ensures
            r@ == self@,
    {
        TileReference(self.clone_tiles())
    }

    /// Parses an address from text held as characters; see
    /// [`TileReference::from_str`].
    pub fn from_chars(text: &Vec<char>) -> (r: Result<TileReference, CoordinateParsingError>)
        ensures
            chars_all_tiles(text@) ==> match r {
                Ok(c) => {
                    &&& validate_from(strip_trailing(tiles_from_chars(text@)), 0) is None
                    &&& c@ == strip_trailing(tiles_from_chars(text@))
                    &&& c.wf()
                },
                Err(e) => {
                    &&& e.kind matches CoordinateParsingErrorKind::TraversalError(t)
                    &&& validate_from(strip_trailing(tiles_from_chars(text@)), 0) == Some(t)
                    &&& e.index == 0
                },
            },
            !chars_all_tiles(text@) ==> (r matches Err(e) && {
                &&& e.index < text@.len()
                &&& Tile::from_char_spec(text@[e.index as int]) is None
                &&& forall|j: int|
                    0 <= j < e.index ==> #[trigger] Tile::from_char_spec(text@[j]) is Some
                &&& e.kind == CoordinateParsingErrorKind::ParseError(text@[e.index as int])
            }),
    {
        let n = text.len();
        let mut tiles: Vec<Tile> = Vec::new();
        let mut i: usize = 0;
        while i < n
            invariant
                i <= n,
                n == text@.len(),
                tiles@ == tiles_from_chars(text@).subrange(0, i as int),
                forall|j: int| 0 <= j < i ==> #[trigger] Tile::from_char_spec(text@[j]) is Some,
            decreases n - i,
        {
            let c = text[i];
            match Tile::try_from_char(c) {
                Ok(t) => {
                    tiles.push(t);
                    proof {
                        assert(tiles@ =~= tiles_from_chars(text@).subrange(0, i + 1));
                    }
                },
                Err(c) => {
                    return Err(
                        CoordinateParsingError {
                            index: i,
                            kind: CoordinateParsingErrorKind::ParseError(c),
                        },
                    );
                },
            }
            i = i + 1;
        }
        proof {
            assert(tiles@ =~= tiles_from_chars(text@));
        }
        match TileReference::new(tiles) {
            Ok(c) => Ok(c),
            Err(e) => Err(
                CoordinateParsingError {
                    index: 0,
                    kind: CoordinateParsingErrorKind::TraversalError(e),
                },
            ),
        }
    }

    /// Parses an address from text: each character names a species,
    /// innermost first, and the result is validated and canonicalised. The
    /// error carries the column of the first character that names no
    /// species, or position zero with the first containment violation.
    pub fn from_str(text: &str) -> (r: Result<TileReference, CoordinateParsingError>)
        ensures
            chars_all_tiles(text@) ==> match r {
                Ok(c) => {
                    &&& validate_from(strip_trailing(tiles_from_chars(text@)), 0) is None
                    &&& c@ == strip_trailing(tiles_from_chars(text@))
                    &&& c.wf()
                },
                Err(e) => {
                    &&& e.kind matches CoordinateParsingErrorKind::TraversalError(t)
                    &&& validate_from(strip_trailing(tiles_from_chars(text@)), 0) == Some(t)
                    &&& e.index == 0
                },
            },
            !chars_all_tiles(text@) ==> (r matches Err(e) && {
                &&& e.index < text@.len()
                &&& Tile::from_char_spec(text@[e.index as int]) is None
                &&& forall|j: int|
                    0 <= j < e.index ==> #[trigger] Tile::from_char_spec(text@[j]) is Some
                &&& e.kind == CoordinateParsingErrorKind::ParseError(text@[e.index as int])
            }),
    {
        let chars = str_to_chars(text);
        TileReference::from_chars(&chars)
    }
}

/// Collects the characters of a text.
pub fn str_to_chars(text: &str) -> (r: Vec<char>)
    ensures
        r@ == text@,
{
    let n = text.unicode_len();
    let mut out: Vec<char> = Vec::new();
    let mut i: usize = 0;
    while i < n
        invariant
            i <= n,
            n == text@.len(),
            out@ == text@.subrange(0, i as int),
        decreases n - i,
    {
        let c = text.get_char(i);
        out.push(c);
        proof {
            assert(out@ =~= text@.subrange(0, i + 1));
        }
        i = i + 1;
    }
    proof {
        assert(out@ =~= text@);
    }
    out
}

/// Copies a chain of species.
fn clone_tile_vec(v: &Vec<Tile>) -> (r: Vec<Tile>)
    ensures
        r@ == v@,
{
    let mut out: Vec<Tile> = Vec::new();
    let mut i: usize = 0;
    while i < v.len()
        invariant
            i <= v.len(),
            out@ == v@.subrange(0, i as int),
        decreases v.len() - i,
    {
        out.push(v[i]);
        proof {
            assert(out@ =~= v@.subrange(0, i + 1));
        }
        i = i + 1;
    }
    proof {
        assert(out@ =~= v@);
    }
    out
}

} // verus!
