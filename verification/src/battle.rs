use vstd::prelude::*;

use crate::Vector2;
use crate::desk::{Desk, DeskView, damage_at, footprint, footprint_offsets, removed_at};
use crate::errors::GameError;
use crate::units::{Unit, UnitType, unit_type_of_id};

verus! {

/// The numeric handle under which the host knows a player. The engine only
/// ever compares handles for equality.
pub type PlayerId = u64;

/// The coarse-grained state of a battle. It only ever advances forward, in
/// the order these variants are declared.
#[derive(Clone, Copy, PartialEq, Eq, Structural, Debug)]
pub enum Phase {
    WaitingForOpponent,
    PlacingUnits,
    InProgress,
    Finished,
}

/// Position of a phase in the battle's forward-only lifecycle.
pub open spec fn phase_rank(p: Phase) -> int {
    match p {
        Phase::WaitingForOpponent => 0,
        Phase::PlacingUnits => 1,
        Phase::InProgress => 2,
        Phase::Finished => 3,
    }
}

/// The mathematical value of a battle.
#[verifier::ext_equal]
pub struct BattleView {
    pub battle_id: i8,
    pub first_player: Option<PlayerId>,
    pub second_player: Option<PlayerId>,
    pub desk: DeskView,
    pub bid: u128,
    pub first_player_units: Seq<i8>,
    pub second_player_units: Seq<i8>,
    pub current_state: Phase,
    pub last_unit_id: i8,
    pub current_move_owner: i8,
    pub winner: Option<PlayerId>,
}

/// A roster holds at most six pairwise distinct unit ids, all issued by the
/// battle's id counter.
pub open spec fn roster_wf(r: Seq<i8>, last_unit_id: i8) -> bool {
    &&& r.len() <= 6
    &&& forall|i: int| 0 <= i < r.len() ==> 0 <= #[trigger] r[i] < last_unit_id
    &&& forall|i: int, j: int| 0 <= i < j < r.len() ==> #[trigger] r[i] != #[trigger] r[j]
}

/// No unit id stands in both rosters.
pub open spec fn rosters_disjoint(a: Seq<i8>, b: Seq<i8>) -> bool {
    forall|i: int, j: int|
        0 <= i < a.len() && 0 <= j < b.len() ==> #[trigger] a[i] != #[trigger] b[j]
}

impl BattleView {
    pub open spec fn wf(self) -> bool {
        &&& self.desk.wf()
        &&& self.first_player is Some
        &&& (self.second_player is None <==> self.current_state == Phase::WaitingForOpponent)
        &&& roster_wf(self.first_player_units, self.last_unit_id)
        &&& roster_wf(self.second_player_units, self.last_unit_id)
        &&& rosters_disjoint(self.first_player_units, self.second_player_units)
        &&& 0 <= self.last_unit_id <= 12
        &&& (self.current_state == Phase::WaitingForOpponent || self.current_state
            == Phase::PlacingUnits) ==> self.last_unit_id as int
            == self.first_player_units.len() + self.second_player_units.len()
        &&& (self.current_move_owner == 0 || self.current_move_owner == 1)
        &&& (self.winner is Some <==> self.current_state == Phase::Finished)
    }
}

/// The top-level aggregate: two players, the board, each side's roster of
/// live unit ids, the stake, the phase, the turn owner and the winner.
pub struct Battle {
    pub battle_id: i8,
    pub first_player: Option<PlayerId>,
    pub second_player: Option<PlayerId>,
    pub desk: Desk,
    pub bid: u128,
    pub first_player_units: Vec<i8>,
    pub second_player_units: Vec<i8>,
    pub current_state: Phase,
    pub last_unit_id: i8,
    pub current_move_owner: i8,
    pub winner: Option<PlayerId>,
}

impl View for Battle {
    type V = BattleView;

    open spec fn view(&self) -> BattleView {
        BattleView {
            battle_id: self.battle_id,
            first_player: self.first_player,
            second_player: self.second_player,
            desk: self.desk@,
            bid: self.bid,
            first_player_units: self.first_player_units@,
            second_player_units: self.second_player_units@,
            current_state: self.current_state,
            last_unit_id: self.last_unit_id,
            current_move_owner: self.current_move_owner,
            winner: self.winner,
        }
    }
}

impl Battle {
    /// A fresh battle posted by `creator` with stake `_bid` on a board of
    /// `x` by `y` cells, waiting for an opponent.
    pub fn new(_bid: u128, creator: PlayerId, id: i8, x: i8, y: i8) -> (b: Battle)
        requires
            0 <= x,
            0 <= y,
            x * y <= 128,
        ensures
            b@.wf(),
            b@.battle_id == id,
            b@.first_player == Some(creator),
            b@.second_player is None,
            b@.bid == _bid,
            b@.current_state == Phase::WaitingForOpponent,
            b@.current_move_owner == 0,
            b@.winner is None,
            b@.first_player_units.len() == 0,
            b@.second_player_units.len() == 0,
            b@.last_unit_id == 0,
            b@.desk.x_range == x as int,
            b@.desk.y_range == y as int,
            forall|i: int, j: int| b@.desk.in_bounds(i, j) ==> b@.desk.unit_at(i, j) is None,
    {
        Battle {
            battle_id: id,
            first_player: Some(creator),
            second_player: None,
            desk: Desk::new(x, y),
            first_player_units: Vec::new(),
            second_player_units: Vec::new(),
            bid: _bid,
            current_state: Phase::WaitingForOpponent,
            last_unit_id: 0,
            current_move_owner: 0,
            winner: None,
        }
    }

    /// Admits the second player: the deposit must at least match the stake
    /// and the seat must still be free. Success advances the phase to
    /// `PlacingUnits`.
    pub fn join_battle(&mut self, player_id: PlayerId, deposit: u128) -> (r: Result<
        (),
        GameError,
    >)
        requires
            old(self)@.wf(),
        ensures
            final(self)@.wf(),
            phase_rank(old(self)@.current_state) <= phase_rank(final(self)@.current_state),
            match r {
                Ok(()) => {
                    &&& deposit >= old(self)@.bid
                    &&& old(self)@.second_player is None
                    &&& final(self)@ == (BattleView {
                        second_player: Some(player_id),
                        current_state: Phase::PlacingUnits,
                        ..old(self)@
                    })
                },
                Err(e) => {
                    &&& final(self)@ == old(self)@
                    &&& if deposit < old(self)@.bid {
                        e == GameError::InsufficientStake
                    } else {
                        e == GameError::BattleFull && old(self)@.second_player is Some
                    }
                },
            },
    {
        if deposit < self.bid {
            return Err(GameError::InsufficientStake);
        }
        if self.second_player.is_some() {
            return Err(GameError::BattleFull);
        }
        self.second_player = Some(player_id);
        self.current_state = Phase::PlacingUnits;
        Ok(())
    }
}

/// Index of the first occurrence of `id` at or after position `k`.
pub open spec fn index_of_id(r: Seq<i8>, id: i8, k: int) -> Option<int>
    decreases r.len() - k,
{
    if k < 0 || k >= r.len() {
        None
    } else if r[k] == id {
        Some(k)
    } else {
        index_of_id(r, id, k + 1)
    }
}

/// The roster with the first occurrence of `id` taken out, if any.
pub open spec fn remove_first(r: Seq<i8>, id: i8) -> Seq<i8> {
    match index_of_id(r, id, 0) {
        Some(i) => r.remove(i),
        None => r,
    }
}

pub proof fn lemma_index_of_id_valid(r: Seq<i8>, id: i8, k: int)
    requires
        index_of_id(r, id, k) is Some,
    ensures
        k <= index_of_id(r, id, k)->0 < r.len(),
        r[index_of_id(r, id, k)->0] == id,
    decreases r.len() - k,
{
    if k < 0 || k >= r.len() {
    } else if r[k] == id {
    } else {
        lemma_index_of_id_valid(r, id, k + 1);
    }
}

/// Taking an id out of a well-formed roster leaves a well-formed roster, and
/// every remaining member already stood in it before.
pub proof fn lemma_remove_first_wf(a: Seq<i8>, id: i8, last: i8)
    requires
        roster_wf(a, last),
    ensures
        roster_wf(remove_first(a, id), last),
        remove_first(a, id).len() <= a.len(),
        forall|j: int|
            0 <= j < remove_first(a, id).len() ==> a.contains(#[trigger] remove_first(a, id)[j]),
{
    let res = remove_first(a, id);
    match index_of_id(a, id, 0) {
        None => {
            assert forall|j: int| 0 <= j < res.len() implies a.contains(res[j]) by {
                assert(a[j] == res[j]);
            }
        },
        Some(i) => {
            lemma_index_of_id_valid(a, id, 0);
            assert forall|j: int| 0 <= j < res.len() implies a.contains(res[j]) by {
                if j < i {
                    assert(a[j] == res[j]);
                } else {
                    assert(a[j + 1] == res[j]);
                }
            }
            assert forall|p: int, q: int| 0 <= p < q < res.len() implies #[trigger] res[p]
                != #[trigger] res[q] by {
                if q < i {
                    assert(res[p] == a[p] && res[q] == a[q]);
                } else if p < i {
                    assert(res[p] == a[p] && res[q] == a[q + 1]);
                } else {
                    assert(res[p] == a[p + 1] && res[q] == a[q + 1]);
                }
            }
            assert(roster_wf(res, last));
        },
    }
}

impl Battle {
    /// True iff `id` stands in the roster.
    fn contains_id(roster: &Vec<i8>, id: i8) -> (b: bool)
        ensures
            b == roster@.contains(id),
    {
        let n = roster.len();
        for k in 0..n
            invariant
                n == roster@.len(),
                forall|j: int| 0 <= j < k ==> roster@[j] != id,
        {
            if roster[k] == id {
                return true;
            }
        }
        false
    }

    /// Strikes the first occurrence of `id` from the roster, if present.
    fn remove_id(roster: &mut Vec<i8>, id: i8)
        ensures
            final(roster)@ == remove_first(old(roster)@, id),
    {
        let n = roster.len();
        for k in 0..n
            invariant
                n == roster@.len(),
                roster@ == old(roster)@,
                index_of_id(roster@, id, 0) == index_of_id(roster@, id, k as int),
        {
            if roster[k] == id {
                proof {
                    assert(index_of_id(roster@, id, 0) == Some(k as int));
                }
                roster.remove(k);
                return;
            }
        }
    }
}

/// Extending a well-formed roster with consecutively numbered fresh ids keeps
/// it well formed and disjoint from the untouched other roster.
pub proof fn lemma_extended_roster_wf(
    orig: Seq<i8>,
    ext: Seq<i8>,
    other: Seq<i8>,
    old_last: i8,
    new_last: i8,
)
    requires
        roster_wf(orig, old_last),
        roster_wf(other, old_last),
        rosters_disjoint(orig, other),
        rosters_disjoint(other, orig),
        0 <= old_last <= new_last <= 127,
        ext.len() <= 6,
        ext.len() == orig.len() + (new_last - old_last),
        forall|j: int|
            0 <= j < ext.len() ==> #[trigger] ext[j] == (if j < orig.len() {
                orig[j]
            } else {
                (old_last + (j - orig.len())) as i8
            }),
    ensures
        roster_wf(ext, new_last),
        roster_wf(other, new_last),
        rosters_disjoint(ext, other),
        rosters_disjoint(other, ext),
{
    assert forall|i: int, j: int| 0 <= i < j < ext.len() implies #[trigger] ext[i]
        != #[trigger] ext[j] by {}
    assert forall|i: int, j: int|
        0 <= i < ext.len() && 0 <= j < other.len() implies #[trigger] ext[i]
        != #[trigger] other[j] by {}
    assert forall|i: int, j: int|
        0 <= i < other.len() && 0 <= j < ext.len() implies #[trigger] other[i]
        != #[trigger] ext[j] by {}
}

/// One side's placement batch folded over the board: each `(kind, x, y)`
/// triple must name a known kind and a free cell in the caller's own columns
/// (`x <= 2` for the first player, `4 <= x < width` for the second); any
/// failure aborts the whole batch as `IllegalPlacement`. Each placed unit is
/// created at level 1 under the next fresh id.
pub open spec fn place_batch(
    d: DeskView,
    roster: Seq<i8>,
    last_unit_id: i8,
    units: Seq<(i8, i8, i8)>,
    is_first: bool,
) -> Result<(DeskView, Seq<i8>, i8), GameError>
    decreases units.len(),
{
    if units.len() == 0 {
        Ok((d, roster, last_unit_id))
    } else {
        let t = units[0].0;
        let x = units[0].1;
        let y = units[0].2;
        if !(0 <= t <= 2) {
            Err(GameError::IllegalPlacement)
        } else if is_first && !(x <= 2) {
            Err(GameError::IllegalPlacement)
        } else if !is_first && !(4 <= x && (x as int) < d.x_range) {
            Err(GameError::IllegalPlacement)
        } else if !d.in_bounds(x as int, y as int) {
            Err(GameError::IllegalPlacement)
        } else if d.unit_at(x as int, y as int) is Some {
            Err(GameError::IllegalPlacement)
        } else {
            let placed = Unit {
                current_position: Vector2 { x, y, id: 0i8 },
                ..crate::units::unit_new(1, unit_type_of_id(t as int), last_unit_id)
            };
            place_batch(
                d.with_unit(x as int, y as int, Some(placed)),
                roster.push(last_unit_id),
                (last_unit_id + 1) as i8,
                units.skip(1),
                is_first,
            )
        }
    }
}

/// What `place_units` does to a battle: the phase, batch-size, caller and
/// roster-cap checks, then the batch fold of `place_batch`, then the advance
/// to `InProgress` once both sides have placed at least one unit.
pub open spec fn place_units_spec(
    b: BattleView,
    units: Seq<(i8, i8, i8)>,
    caller: PlayerId,
) -> Result<BattleView, GameError> {
    if b.current_state != Phase::PlacingUnits {
        Err(GameError::WrongPhase)
    } else if units.len() > 6 {
        Err(GameError::IllegalPlacement)
    } else if b.first_player == Some(caller) {
        if b.first_player_units.len() + units.len() > 6 {
            Err(GameError::IllegalPlacement)
        } else {
            match place_batch(b.desk, b.first_player_units, b.last_unit_id, units, true) {
                Err(e) => Err(e),
                Ok((d2, r2, l2)) => Ok(
                    BattleView {
                        desk: d2,
                        first_player_units: r2,
                        last_unit_id: l2,
                        current_state: if r2.len() > 0 && b.second_player_units.len() > 0 {
                            Phase::InProgress
                        } else {
                            Phase::PlacingUnits
                        },
                        ..b
                    },
                ),
            }
        }
    } else if b.second_player == Some(caller) {
        if b.second_player_units.len() + units.len() > 6 {
            Err(GameError::IllegalPlacement)
        } else {
            match place_batch(b.desk, b.second_player_units, b.last_unit_id, units, false) {
                Err(e) => Err(e),
                Ok((d2, r2, l2)) => Ok(
                    BattleView {
                        desk: d2,
                        second_player_units: r2,
                        last_unit_id: l2,
                        current_state: if b.first_player_units.len() > 0 && r2.len() > 0 {
                            Phase::InProgress
                        } else {
                            Phase::PlacingUnits
                        },
                        ..b
                    },
                ),
            }
        }
    } else {
        Err(GameError::IllegalPlacement)
    }
}

/// Whether one path segment is legal on this board: exactly one coordinate
/// axis may change, by a distance of one, or of two provided the intermediate
/// cell holds a unit to jump over. Diagonal and zero-distance segments are
/// never legal.
pub open spec fn seg_valid(d: DeskView, p1: (i8, i8), p2: (i8, i8)) -> bool {
    let x1 = p1.0 as int;
    let y1 = p1.1 as int;
    let x2 = p2.0 as int;
    let y2 = p2.1 as int;
    if x1 == x2 {
        let lo = if y1 <= y2 {
            y1
        } else {
            y2
        };
        let dist = if y1 <= y2 {
            y2 - y1
        } else {
            y1 - y2
        };
        dist == 1 || (dist == 2 && d.unit_at(x1, lo + 1) is Some)
    } else if y1 == y2 {
        let lo = if x1 <= x2 {
            x1
        } else {
            x2
        };
        let dist = if x1 <= x2 {
            x2 - x1
        } else {
            x1 - x2
        };
        dist == 1 || (dist == 2 && d.unit_at(lo + 1, y1) is Some)
    } else {
        false
    }
}

/// A two-cell segment on one axis. On an accepted path such a segment always
/// jumped over an occupied intermediate cell.
pub open spec fn seg_jump(p1: (i8, i8), p2: (i8, i8)) -> bool {
    let dx = if p1.0 <= p2.0 {
        p2.0 - p1.0
    } else {
        p1.0 - p2.0
    };
    let dy = if p1.1 <= p2.1 {
        p2.1 - p1.1
    } else {
        p1.1 - p2.1
    };
    (p1.0 == p2.0 && dy == 2) || (p1.1 == p2.1 && dx == 2)
}

/// A path is accepted when it has at least one waypoint, every waypoint lies
/// on the board and every consecutive pair is a legal segment, all judged
/// against the board as it stands before the move.
pub open spec fn path_ok(d: DeskView, moves: Seq<(i8, i8)>) -> bool {
    &&& moves.len() >= 1
    &&& forall|i: int|
        0 <= i < moves.len() ==> d.in_bounds((#[trigger] moves[i]).0 as int, moves[i].1 as int)
    &&& forall|i: int| 0 <= i < moves.len() - 1 ==> seg_valid(d, #[trigger] moves[i], moves[i + 1])
}

/// The index of the last jumping segment among segments `0 .. n`, if any.
pub open spec fn last_jump_before(moves: Seq<(i8, i8)>, n: int) -> Option<int>
    decreases n,
{
    if n <= 0 {
        None
    } else if seg_jump(moves[n - 1], moves[n]) {
        Some(n - 1)
    } else {
        last_jump_before(moves, n - 1)
    }
}

/// Damage the whole command applies: the mover's base damage when no segment
/// jumped, else `base * (k + 3) / 2` for the index `k` of the last jumping
/// segment. Base damages are even, so this is exactly
/// `base * (1 + (k + 1) / 2)` halves made whole.
pub open spec fn move_damage(base: int, moves: Seq<(i8, i8)>) -> int {
    match last_jump_before(moves, moves.len() - 1) {
        None => base,
        Some(k) => base * (k + 3) / 2,
    }
}

/// A killed unit's id leaves whichever roster held it; the sentinel -1 and
/// unknown ids leave both rosters alone.
pub open spec fn strip_id(ra: Seq<i8>, rb: Seq<i8>, id: i8) -> (Seq<i8>, Seq<i8>) {
    if id == -1 {
        (ra, rb)
    } else if ra.contains(id) {
        (remove_first(ra, id), rb)
    } else if rb.contains(id) {
        (ra, remove_first(rb, id))
    } else {
        (ra, rb)
    }
}

/// One footprint cell resolved: off-board cells are skipped; otherwise the
/// damage hits the cell and a killed unit leaves its roster.
pub open spec fn resolve_cell(
    d: DeskView,
    ra: Seq<i8>,
    rb: Seq<i8>,
    x: int,
    y: int,
    damage: int,
) -> (DeskView, Seq<i8>, Seq<i8>) {
    if d.in_bounds(x, y) {
        let rosters = strip_id(ra, rb, removed_at(d, x, y, damage));
        (damage_at(d, x, y, damage), rosters.0, rosters.1)
    } else {
        (d, ra, rb)
    }
}

/// Damage resolved over a footprint, cell by cell in footprint order, each
/// cell judged against the board as the previous cells left it.
pub open spec fn resolve_offsets(
    d: DeskView,
    ra: Seq<i8>,
    rb: Seq<i8>,
    cx: int,
    cy: int,
    offs: Seq<(i8, i8)>,
    damage: int,
) -> (DeskView, Seq<i8>, Seq<i8>)
    decreases offs.len(),
{
    if offs.len() == 0 {
        (d, ra, rb)
    } else {
        let s = resolve_cell(d, ra, rb, cx + offs[0].0, cy + offs[0].1, damage);
        resolve_offsets(s.0, s.1, s.2, cx, cy, offs.skip(1), damage)
    }
}

/// The command-shape checks of a move, after phase, ownership and turn have
/// passed: the path must be non-empty, the unit must stand on the board, the
/// path must be accepted and must start at the moving unit's cell.
pub open spec fn make_move_path_check(
    b: BattleView,
    unit_id: i8,
    moves: Seq<(i8, i8)>,
) -> Option<GameError> {
    if moves.len() == 0 {
        Some(GameError::IllegalMove)
    } else if Desk::find_unit(b.desk, unit_id) is None {
        Some(GameError::UnitNotFound)
    } else if !path_ok(b.desk, moves) {
        Some(GameError::IllegalMove)
    } else if !(b.desk.unit_at(moves[0].0 as int, moves[0].1 as int) matches Some(w)
        && w.unit_id == unit_id) {
        Some(GameError::IllegalMove)
    } else {
        None
    }
}

/// The first reason a move command is refused, or nothing when it is
/// accepted: the battle must be in progress, the caller must be a player who
/// owns the unit and holds the turn, and the path must pass
/// `make_move_path_check`.
pub open spec fn make_move_check(
    b: BattleView,
    unit_id: i8,
    moves: Seq<(i8, i8)>,
    caller: PlayerId,
) -> Option<GameError> {
    if b.current_state != Phase::InProgress {
        Some(GameError::WrongPhase)
    } else if b.first_player == Some(caller) {
        if !b.first_player_units.contains(unit_id) {
            Some(GameError::UnitNotOwned)
        } else if b.current_move_owner != 0 {
            Some(GameError::NotYourTurn)
        } else {
            make_move_path_check(b, unit_id, moves)
        }
    } else if b.second_player == Some(caller) {
        if !b.second_player_units.contains(unit_id) {
            Some(GameError::UnitNotOwned)
        } else if b.current_move_owner != 1 {
            Some(GameError::NotYourTurn)
        } else {
            make_move_path_check(b, unit_id, moves)
        }
    } else {
        Some(GameError::UnitNotOwned)
    }
}

/// What an accepted move does: the unit leaves the path's first cell and
/// stands on its last, the command's damage hits the unit's footprint around
/// that last cell, killed ids leave their rosters, the turn flips, and a side
/// whose roster emptied loses — the first player's roster is checked first —
/// finishing the battle and recording the opponent as winner.
pub open spec fn make_move_apply(b: BattleView, unit_id: i8, moves: Seq<(i8, i8)>) -> BattleView {
    let u = Desk::find_unit(b.desk, unit_id)->0;
    let sx = moves[0].0 as int;
    let sy = moves[0].1 as int;
    let ex = moves[moves.len() - 1].0 as int;
    let ey = moves[moves.len() - 1].1 as int;
    let d2 = b.desk.with_unit(sx, sy, None).with_unit(ex, ey, Some(u));
    let damage = move_damage(u.stats.damage as int, moves);
    let s = resolve_offsets(
        d2,
        b.first_player_units,
        b.second_player_units,
        ex,
        ey,
        footprint(u.unit_type),
        damage,
    );
    let first_emptied = s.1.len() == 0;
    let second_emptied = !first_emptied && s.2.len() == 0;
    BattleView {
        desk: s.0,
        first_player_units: s.1,
        second_player_units: s.2,
        current_move_owner: if b.current_move_owner == 0 {
            1
        } else {
            0
        },
        winner: if first_emptied {
            b.second_player
        } else if second_emptied {
            b.first_player
        } else {
            b.winner
        },
        current_state: if first_emptied || second_emptied {
            Phase::Finished
        } else {
            b.current_state
        },
        ..b
    }
}

impl Battle {
    /// Runs one side's batch against working copies of the board, roster and
    /// id counter, stopping at the first ill-placed unit.
    fn place_batch_exec(
        desk: &mut Desk,
        roster: &mut Vec<i8>,
        last_unit_id: &mut i8,
        units: &Vec<(i8, i8, i8)>,
        is_first: bool,
    ) -> (r: Result<(), GameError>)
        requires
            old(desk)@.wf(),
            0 <= *old(last_unit_id),
            *old(last_unit_id) + units@.len() <= 127,
        ensures
            match r {
                Ok(()) => {
                    &&& place_batch(
                        old(desk)@,
                        old(roster)@,
                        *old(last_unit_id),
                        units@,
                        is_first,
                    ) == Ok::<_, GameError>(
                        (final(desk)@, final(roster)@, *final(last_unit_id)),
                    )
                    &&& final(desk)@.wf()
                    &&& final(roster)@.len() == old(roster)@.len() + units@.len()
                    &&& *final(last_unit_id) as int == *old(last_unit_id) + units@.len()
                    &&& forall|j: int|
                        0 <= j < final(roster)@.len() ==> #[trigger] final(roster)@[j] == (
                        if j < old(roster)@.len() {
                            old(roster)@[j]
                        } else {
                            (*old(last_unit_id) + (j - old(roster)@.len())) as i8
                        })
                    &&& final(desk)@.x_range == old(desk)@.x_range
                    &&& final(desk)@.y_range == old(desk)@.y_range
                },
                Err(e) => place_batch(
                    old(desk)@,
                    old(roster)@,
                    *old(last_unit_id),
                    units@,
                    is_first,
                ) == Err::<(DeskView, Seq<i8>, i8), _>(e),
            },
    {
        proof {
            assert(units@.skip(0) =~= units@);
        }
        let n = units.len();
        for i in 0..n
            invariant
                n == units@.len(),
                desk@.wf(),
                desk@.x_range == old(desk)@.x_range,
                desk@.y_range == old(desk)@.y_range,
                0 <= *old(last_unit_id),
                *old(last_unit_id) + units@.len() <= 127,
                *last_unit_id as int == *old(last_unit_id) + i,
                roster@.len() == old(roster)@.len() + i,
                forall|j: int|
                    0 <= j < roster@.len() ==> #[trigger] roster@[j] == (
                    if j < old(roster)@.len() {
                        old(roster)@[j]
                    } else {
                        (*old(last_unit_id) + (j - old(roster)@.len())) as i8
                    }),
                place_batch(old(desk)@, old(roster)@, *old(last_unit_id), units@, is_first)
                    == place_batch(desk@, roster@, *last_unit_id, units@.skip(i as int), is_first),
        {
            proof {
                assert(units@.skip(i as int)[0] == units@[i as int]);
            }
            let (t, x, y) = units[i];
            if !(0 <= t && t <= 2) {
                return Err(GameError::IllegalPlacement);
            }
            if is_first {
                if !(x <= 2) {
                    return Err(GameError::IllegalPlacement);
                }
            } else {
                if !(4 <= x && x < desk.x_range) {
                    return Err(GameError::IllegalPlacement);
                }
            }
            let new_unit = Unit::new(1, Unit::get_unit_type_by_id(t), *last_unit_id);
            let pos = Vector2::new(x, y, 0);
            match desk.place_unit(pos, new_unit) {
                Err(_) => {
                    return Err(GameError::IllegalPlacement);
                },
                Ok(_) => {},
            }
            roster.push(*last_unit_id);
            *last_unit_id = *last_unit_id + 1;
            proof {
                assert(units@.skip(i as int).skip(1) =~= units@.skip(i as int + 1));
            }
        }
        proof {
            assert(units@.skip(n as int) =~= Seq::<(i8, i8, i8)>::empty());
        }
        Ok(())
    }

    /// Places a batch of `(kind, x, y)` units for `caller`, wholly or not at
    /// all. The roster cap of six per side, the caller's own columns and cell
    /// occupancy are enforced; once both sides hold at least one unit the
    /// phase advances to `InProgress`.
    pub fn place_units(&mut self, units: Vec<(i8, i8, i8)>, caller: PlayerId) -> (r: Result<
        (),
        GameError,
    >)
        requires
            old(self)@.wf(),
        ensures
            final(self)@.wf(),
            phase_rank(old(self)@.current_state) <= phase_rank(final(self)@.current_state),
            final(self)@.first_player_units.len() <= 6,
            final(self)@.second_player_units.len() <= 6,
            match r {
                Ok(()) => place_units_spec(old(self)@, units@, caller) == Ok::<_, GameError>(
                    final(self)@,
                ),
                Err(e) => final(self)@ == old(self)@ && place_units_spec(old(self)@, units@, caller)
                    == Err::<BattleView, _>(e),
            },
    {
        if self.current_state != Phase::PlacingUnits {
            return Err(GameError::WrongPhase);
        }
        if units.len() > 6 {
            return Err(GameError::IllegalPlacement);
        }
        let is_first = match self.first_player {
            Some(p) => p == caller,
            None => false,
        };
        let is_second = !is_first && match self.second_player {
            Some(p) => p == caller,
            None => false,
        };
        if !is_first && !is_second {
            return Err(GameError::IllegalPlacement);
        }
        let own_len = if is_first {
            self.first_player_units.len()
        } else {
            self.second_player_units.len()
        };
        if own_len + units.len() > 6 {
            return Err(GameError::IllegalPlacement);
        }
        let mut new_desk = self.desk.duplicate();
        let mut new_roster = if is_first {
            Self::clone_roster(&self.first_player_units)
        } else {
            Self::clone_roster(&self.second_player_units)
        };
        let mut new_last = self.last_unit_id;
        match Self::place_batch_exec(&mut new_desk, &mut new_roster, &mut new_last, &units, is_first) {
            Err(e) => Err(e),
            Ok(()) => {
                proof {
                    let b0 = old(self)@;
                    let orig = if is_first {
                        b0.first_player_units
                    } else {
                        b0.second_player_units
                    };
                    let other = if is_first {
                        b0.second_player_units
                    } else {
                        b0.first_player_units
                    };
                    assert forall|i: int, j: int|
                        0 <= i < b0.second_player_units.len() && 0 <= j
                            < b0.first_player_units.len() implies #[trigger] b0.second_player_units[i]
                        != #[trigger] b0.first_player_units[j] by {}
                    lemma_extended_roster_wf(orig, new_roster@, other, b0.last_unit_id, new_last);
                }
                self.desk = new_desk;
                if is_first {
                    self.first_player_units = new_roster;
                } else {
                    self.second_player_units = new_roster;
                }
                self.last_unit_id = new_last;
                if self.first_player_units.len() > 0 && self.second_player_units.len() > 0 {
                    self.current_state = Phase::InProgress;
                }
                proof {
                    let expect = place_units_spec(old(self)@, units@, caller);
                    assert(expect is Ok);
                    assert(self@ =~= expect->Ok_0);
                    assert(self@.wf());
                }
                Ok(())
            },
        }
    }

    /// Whether one path segment is legal on this board: exactly one axis may
    /// change, by one, or by two when the intermediate cell is occupied.
    fn check_segment(desk: &Desk, p1: (i8, i8), p2: (i8, i8)) -> (b: bool)
        requires
            desk@.wf(),
            desk@.in_bounds(p1.0 as int, p1.1 as int),
            desk@.in_bounds(p2.0 as int, p2.1 as int),
        ensures
            b == seg_valid(desk@, p1, p2),
    {
        let (x1, y1) = p1;
        let (x2, y2) = p2;
        if x1 == x2 {
            let lo = if y1 <= y2 { y1 } else { y2 };
            let dist = if y1 <= y2 { y2 as i16 - y1 as i16 } else { y1 as i16 - y2 as i16 };
            if dist == 1 {
                true
            } else if dist == 2 {
                match desk.get_cell_at(x1, lo + 1) {
                    Ok(c) => c.unit.is_some(),
                    Err(_) => false,
                }
            } else {
                false
            }
        } else if y1 == y2 {
            let lo = if x1 <= x2 { x1 } else { x2 };
            let dist = if x1 <= x2 { x2 as i16 - x1 as i16 } else { x1 as i16 - x2 as i16 };
            if dist == 1 {
                true
            } else if dist == 2 {
                match desk.get_cell_at(lo + 1, y1) {
                    Ok(c) => c.unit.is_some(),
                    Err(_) => false,
                }
            } else {
                false
            }
        } else {
            false
        }
    }

    /// Whether the segment covers two cells on its axis, which makes it a
    /// jump once the path is accepted.
    fn is_jump_segment(p1: (i8, i8), p2: (i8, i8)) -> (b: bool)
        ensures
            b == seg_jump(p1, p2),
    {
        let (x1, y1) = p1;
        let (x2, y2) = p2;
        let dx = if x1 <= x2 { x2 as i16 - x1 as i16 } else { x1 as i16 - x2 as i16 };
        let dy = if y1 <= y2 { y2 as i16 - y1 as i16 } else { y1 as i16 - y2 as i16 };
        (x1 == x2 && dy == 2) || (y1 == y2 && dx == 2)
    }

    /// Applies `damage` to every cell of the kind's footprint around
    /// `(cx, cy)`, stripping each killed unit's id from whichever roster held
    /// it.
    fn apply_area_damage(
        desk: &mut Desk,
        ra: &mut Vec<i8>,
        rb: &mut Vec<i8>,
        cx: i8,
        cy: i8,
        unit_type: UnitType,
        damage: u128,
        last_unit_id: Ghost<i8>,
    )
        requires
            old(desk)@.wf(),
            roster_wf(old(ra)@, last_unit_id@),
            roster_wf(old(rb)@, last_unit_id@),
            rosters_disjoint(old(ra)@, old(rb)@),
            rosters_disjoint(old(rb)@, old(ra)@),
        ensures
            final(desk)@.wf(),
            final(desk)@.x_range == old(desk)@.x_range,
            final(desk)@.y_range == old(desk)@.y_range,
            (final(desk)@, final(ra)@, final(rb)@) == resolve_offsets(
                old(desk)@,
                old(ra)@,
                old(rb)@,
                cx as int,
                cy as int,
                footprint(unit_type),
                damage as int,
            ),
            roster_wf(final(ra)@, last_unit_id@),
            roster_wf(final(rb)@, last_unit_id@),
            rosters_disjoint(final(ra)@, final(rb)@),
            rosters_disjoint(final(rb)@, final(ra)@),
    {
        proof {
            assert(footprint(unit_type).skip(0) =~= footprint(unit_type));
        }
        let offs = footprint_offsets(unit_type);
        let m = offs.len();
        for i in 0..m
            invariant
                m == offs@.len(),
                offs@ == footprint(unit_type),
                desk@.wf(),
                desk@.x_range == old(desk)@.x_range,
                desk@.y_range == old(desk)@.y_range,
                roster_wf(ra@, last_unit_id@),
                roster_wf(rb@, last_unit_id@),
                rosters_disjoint(ra@, rb@),
                rosters_disjoint(rb@, ra@),
                resolve_offsets(
                    old(desk)@,
                    old(ra)@,
                    old(rb)@,
                    cx as int,
                    cy as int,
                    footprint(unit_type),
                    damage as int,
                ) == resolve_offsets(
                    desk@,
                    ra@,
                    rb@,
                    cx as int,
                    cy as int,
                    footprint(unit_type).skip(i as int),
                    damage as int,
                ),
        {
            proof {
                assert(footprint(unit_type).skip(i as int)[0] == footprint(unit_type)[i as int]);
            }
            let ghost ra_pre = ra@;
            let ghost rb_pre = rb@;
            let (dx, dy) = offs[i];
            let tx = cx as i16 + dx as i16;
            let ty = cy as i16 + dy as i16;
            if 0 <= tx && tx < desk.x_range as i16 && 0 <= ty && ty < desk.y_range as i16 {
                let removed = desk.deal_damage_at_cell(tx as i8, ty as i8, damage);
                if removed != -1 {
                    if Self::contains_id(ra, removed) {
                        Self::remove_id(ra, removed);
                        proof {
                            lemma_remove_first_wf(ra_pre, removed, last_unit_id@);
                            assert forall|p: int, q: int|
                                0 <= p < ra@.len() && 0 <= q < rb@.len() implies #[trigger] ra@[p]
                                != #[trigger] rb@[q] by {
                                assert(ra_pre.contains(ra@[p]));
                                let w = choose|w: int| 0 <= w < ra_pre.len() && ra_pre[w] == ra@[p];
                                assert(ra_pre[w] != rb@[q]);
                            }
                        }
                    } else if Self::contains_id(rb, removed) {
                        Self::remove_id(rb, removed);
                        proof {
                            lemma_remove_first_wf(rb_pre, removed, last_unit_id@);
                            assert forall|p: int, q: int|
                                0 <= p < rb@.len() && 0 <= q < ra@.len() implies #[trigger] rb@[p]
                                != #[trigger] ra@[q] by {
                                assert(rb_pre.contains(rb@[p]));
                                let w = choose|w: int| 0 <= w < rb_pre.len() && rb_pre[w] == rb@[p];
                                assert(rb_pre[w] != ra@[q]);
                            }
                        }
                    }
                }
                proof {
                    assert((ra@, rb@) == strip_id(ra_pre, rb_pre, removed));
                }
            }
            proof {
                assert(footprint(unit_type).skip(i as int).skip(1) =~= footprint(unit_type).skip(
                    i as int + 1,
                ));
            }
        }
        proof {
            assert(footprint(unit_type).skip(m as int) =~= Seq::<(i8, i8)>::empty());
        }
    }

    /// Executes one move command for `caller`. Validation runs to completion
    /// before any state is written: the battle must be in progress, the
    /// caller must own the unit and hold the turn, and the whole path must be
    /// legal. Then the unit is relocated to the path's last cell, the
    /// command's damage hits the unit's footprint there — friend or foe —
    /// killed ids leave their rosters, the turn flips, and an emptied roster
    /// finishes the battle with the opponent as winner, who is returned.
    pub fn make_move(&mut self, unit_id: i8, moves: Vec<(i8, i8)>, caller: PlayerId) -> (r:
        Result<Option<PlayerId>, GameError>)
        requires
            old(self)@.wf(),
        ensures
            final(self)@.wf(),
            phase_rank(old(self)@.current_state) <= phase_rank(final(self)@.current_state),
            match r {
                Err(e) => final(self)@ == old(self)@ && make_move_check(
                    old(self)@,
                    unit_id,
                    moves@,
                    caller,
                ) == Some(e),
                Ok(w) => {
                    &&& make_move_check(old(self)@, unit_id, moves@, caller) is None
                    &&& final(self)@ == make_move_apply(old(self)@, unit_id, moves@)
                    &&& w == final(self)@.winner
                    &&& final(self)@.current_move_owner as int == 1 - old(
                        self,
                    )@.current_move_owner as int
                },
            },
    {
        if self.current_state != Phase::InProgress {
            return Err(GameError::WrongPhase);
        }
        let is_first = match self.first_player {
            Some(p) => p == caller,
            None => false,
        };
        let is_second = !is_first && (match self.second_player {
            Some(p) => p == caller,
            None => false,
        });
        if is_first {
            if !Self::contains_id(&self.first_player_units, unit_id) {
                return Err(GameError::UnitNotOwned);
            }
            if self.current_move_owner != 0 {
                return Err(GameError::NotYourTurn);
            }
        } else if is_second {
            if !Self::contains_id(&self.second_player_units, unit_id) {
                return Err(GameError::UnitNotOwned);
            }
            if self.current_move_owner != 1 {
                return Err(GameError::NotYourTurn);
            }
        } else {
            return Err(GameError::UnitNotOwned);
        }
        let n = moves.len();
        if n == 0 {
            return Err(GameError::IllegalMove);
        }
        let unit = match self.desk.get_unit_by_id(unit_id) {
            Ok(u) => u,
            Err(_) => {
                return Err(GameError::UnitNotFound);
            },
        };
        for i in 0..n
            invariant
                n == moves@.len(),
                n >= 1,
                self@ == old(self)@,
                old(self)@.wf(),
                make_move_check(old(self)@, unit_id, moves@, caller) == make_move_path_check(
                    old(self)@,
                    unit_id,
                    moves@,
                ),
                Desk::find_unit(old(self)@.desk, unit_id) is Some,
                forall|j: int|
                    0 <= j < i ==> self@.desk.in_bounds(
                        (#[trigger] moves@[j]).0 as int,
                        moves@[j].1 as int,
                    ),
        {
            let (px, py) = moves[i];
            if !(0 <= px && px < self.desk.x_range && 0 <= py && py < self.desk.y_range) {
                proof {
                    assert(!path_ok(self@.desk, moves@));
                }
                return Err(GameError::IllegalMove);
            }
        }
        for i in 0..n - 1
            invariant
                n == moves@.len(),
                n >= 1,
                self@ == old(self)@,
                old(self)@.wf(),
                make_move_check(old(self)@, unit_id, moves@, caller) == make_move_path_check(
                    old(self)@,
                    unit_id,
                    moves@,
                ),
                Desk::find_unit(old(self)@.desk, unit_id) is Some,
                forall|j: int|
                    0 <= j < n ==> self@.desk.in_bounds(
                        (#[trigger] moves@[j]).0 as int,
                        moves@[j].1 as int,
                    ),
                forall|j: int|
                    0 <= j < i ==> seg_valid(self@.desk, #[trigger] moves@[j], moves@[j + 1]),
        {
            if !Self::check_segment(&self.desk, moves[i], moves[i + 1]) {
                proof {
                    assert(!path_ok(self@.desk, moves@));
                }
                return Err(GameError::IllegalMove);
            }
        }
        let (sx, sy) = moves[0];
        let start_cell = match self.desk.get_cell_at(sx, sy) {
            Ok(c) => c,
            Err(_) => {
                return Err(GameError::IllegalMove);
            },
        };
        let start_ok = match start_cell.unit {
            Some(w) => w.unit_id == unit_id,
            None => false,
        };
        if !start_ok {
            return Err(GameError::IllegalMove);
        }
        proof {
            assert(path_ok(old(self)@.desk, moves@));
            assert(make_move_check(old(self)@, unit_id, moves@, caller) is None);
        }
        let base = unit.stats.damage;
        let mut damage: u128 = base as u128;
        for i in 0..n - 1
            invariant
                n == moves@.len(),
                n >= 1,
                damage as int == (match last_jump_before(moves@, i as int) {
                    None => base as int,
                    Some(k) => base as int * (k + 3) / 2,
                }),
        {
            if Self::is_jump_segment(moves[i], moves[i + 1]) {
                proof {
                    let bi = base as int;
                    let mi = i as int + 3;
                    assert(bi * mi <= 0xffff_ffff * mi) by (nonlinear_arith)
                        requires
                            0 <= bi <= 0xffff_ffff,
                            0 <= mi,
                    ;
                }
                damage = (base as u128) * ((i as u128) + 3) / 2;
            }
        }
        let (ex, ey) = moves[n - 1];
        self.desk.insert_unit_at_cell(sx, sy, None);
        self.desk.insert_unit_at_cell(ex, ey, Some(unit));
        proof {
            let b0 = old(self)@;
            assert forall|i: int, j: int|
                0 <= i < b0.second_player_units.len() && 0 <= j
                    < b0.first_player_units.len() implies #[trigger] b0.second_player_units[i]
                != #[trigger] b0.first_player_units[j] by {}
        }
        Self::apply_area_damage(
            &mut self.desk,
            &mut self.first_player_units,
            &mut self.second_player_units,
            ex,
            ey,
            unit.unit_type,
            damage,
            Ghost(self.last_unit_id),
        );
        if self.current_move_owner == 0 {
            self.current_move_owner = 1;
        } else {
            self.current_move_owner = 0;
        }
        if self.first_player_units.len() == 0 {
            self.winner = self.second_player;
            self.current_state = Phase::Finished;
        } else if self.second_player_units.len() == 0 {
            self.winner = self.first_player;
            self.current_state = Phase::Finished;
        }
        proof {
            assert(self@ =~= make_move_apply(old(self)@, unit_id, moves@));
            assert(self@.wf());
        }
        Ok(self.winner)
    }

    /// An independent copy of a roster.
    fn clone_roster(roster: &Vec<i8>) -> (r: Vec<i8>)
        ensures
            r@ == roster@,
    {
        let n = roster.len();
        let mut r: Vec<i8> = Vec::new();
        for k in 0..n
            invariant
                n == roster@.len(),
                r@ == roster@.subrange(0, k as int),
        {
            r.push(roster[k]);
            proof {
                assert(r@ =~= roster@.subrange(0, k as int + 1));
            }
        }
        proof {
            assert(roster@.subrange(0, n as int) =~= roster@);
        }
        r
    }
}


/// The turn owner strictly alternates across successive accepted moves: one
/// accepted move flips it, and a second accepted move flips it back.
pub proof fn lemma_turn_alternates(
    b0: BattleView,
    uid1: i8,
    mv1: Seq<(i8, i8)>,
    c1: PlayerId,
    uid2: i8,
    mv2: Seq<(i8, i8)>,
    c2: PlayerId,
)
    requires
        b0.current_move_owner == 0 || b0.current_move_owner == 1,
        make_move_check(b0, uid1, mv1, c1) is None,
        make_move_check(make_move_apply(b0, uid1, mv1), uid2, mv2, c2) is None,
    ensures
        make_move_apply(b0, uid1, mv1).current_move_owner != b0.current_move_owner,
        make_move_apply(make_move_apply(b0, uid1, mv1), uid2, mv2).current_move_owner
            == b0.current_move_owner,
{
}

/// A move path with an illegal segment — diagonal, distance zero or more than
/// two, or a two-cell segment over an empty intermediate cell — is always
/// refused, whatever else the command looks like; `make_move` then returns
/// that error and leaves the battle unchanged.
pub proof fn lemma_bad_path_rejected(
    b: BattleView,
    unit_id: i8,
    moves: Seq<(i8, i8)>,
    caller: PlayerId,
    i: int,
)
    requires
        0 <= i < moves.len() - 1,
        !seg_valid(b.desk, moves[i], moves[i + 1]),
    ensures
        make_move_check(b, unit_id, moves, caller) is Some,
{
    assert(!path_ok(b.desk, moves));
}

proof fn lemma_no_jump_before(moves: Seq<(i8, i8)>, n: int)
    requires
        n <= moves.len() - 1,
        forall|i: int| 0 <= i < moves.len() - 1 ==> !seg_jump(#[trigger] moves[i], moves[i + 1]),
    ensures
        last_jump_before(moves, n) is None,
    decreases n,
{
    if n > 0 {
        assert(!seg_jump(moves[n - 1], moves[n]));
        lemma_no_jump_before(moves, n - 1);
    }
}

/// When no segment of the path jumps, the command's damage is exactly the
/// mover's base damage.
pub proof fn lemma_damage_no_jump(base: int, moves: Seq<(i8, i8)>)
    requires
        forall|i: int| 0 <= i < moves.len() - 1 ==> !seg_jump(#[trigger] moves[i], moves[i + 1]),
    ensures
        move_damage(base, moves) == base,
{
    lemma_no_jump_before(moves, moves.len() - 1);
}

proof fn lemma_last_jump_at(moves: Seq<(i8, i8)>, k: int, n: int)
    requires
        0 <= k < n <= moves.len() - 1,
        seg_jump(moves[k], moves[k + 1]),
        forall|i: int| k < i < moves.len() - 1 ==> !seg_jump(#[trigger] moves[i], moves[i + 1]),
    ensures
        last_jump_before(moves, n) == Some(k),
    decreases n,
{
    if n == k + 1 {
        assert(seg_jump(moves[n - 1], moves[n]));
    } else {
        assert(!seg_jump(moves[n - 1], moves[n]));
        lemma_last_jump_at(moves, k, n - 1);
    }
}

/// When the last jumping segment of the path has index `k`, the command's
/// damage is `base * (k + 3) / 2`, that is `base` multiplied by
/// `1 + (k + 1) / 2` with the halves exact because base damages are even.
pub proof fn lemma_damage_last_jump(base: int, moves: Seq<(i8, i8)>, k: int)
    requires
        0 <= k < moves.len() - 1,
        seg_jump(moves[k], moves[k + 1]),
        forall|i: int| k < i < moves.len() - 1 ==> !seg_jump(#[trigger] moves[i], moves[i + 1]),
    ensures
        move_damage(base, moves) == base * (k + 3) / 2,
{
    lemma_last_jump_at(moves, k, moves.len() - 1);
}

} // verus!
