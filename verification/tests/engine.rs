use battle_engine::battle::{Battle, Phase};
use battle_engine::desk::Desk;
use battle_engine::errors::GameError;
use battle_engine::units::{Unit, UnitStats, UnitType};
use battle_engine::Vector2;

const ALICE: u64 = 1;
const BOB: u64 = 2;
const STRANGER: u64 = 9;

/// A joined battle on the default 7x4 board, still placing.
fn joined_battle() -> Battle {
    let mut b = Battle::new(100, ALICE, 0, 7, 4);
    b.join_battle(BOB, 100).unwrap();
    b
}

#[test]
fn board_has_one_cell_per_coordinate() {
    let d = Desk::new(7, 4);
    assert_eq!(d.cells.len(), 28);
    for i in 0..d.cells.len() {
        for j in 0..d.cells.len() {
            if i != j {
                let a = d.cells[i].position;
                let b = d.cells[j].position;
                assert!(a.x != b.x || a.y != b.y);
            }
        }
    }
    for x in 0..7i8 {
        for y in 0..4i8 {
            let c = d.get_cell_at(x, y).unwrap();
            assert_eq!(c.position.x, x);
            assert_eq!(c.position.y, y);
            assert!(c.unit.is_none());
        }
    }
}

#[test]
fn cell_out_of_range_is_position_not_found() {
    let d = Desk::new(7, 4);
    assert_eq!(d.get_cell_at(7, 0).unwrap_err(), GameError::PositionNotFound);
    assert_eq!(d.get_cell_at(0, 4).unwrap_err(), GameError::PositionNotFound);
    assert_eq!(d.get_cell_at(-1, 0).unwrap_err(), GameError::PositionNotFound);
}

#[test]
fn place_unit_on_occupied_cell_fails_without_mutation() {
    let mut d = Desk::new(7, 4);
    let u0 = Unit::new(1, UnitType::Orc, 0);
    let u1 = Unit::new(1, UnitType::Mage, 1);
    d.place_unit(Vector2::new(3, 2, 0), u0).unwrap();
    let e = d.place_unit(Vector2::new(3, 2, 0), u1).unwrap_err();
    assert_eq!(e, GameError::CellOccupied);
    let kept = d.get_cell_at(3, 2).unwrap().unit.unwrap();
    assert_eq!(kept.unit_id, 0);
    assert!(matches!(kept.unit_type, UnitType::Orc));
}

#[test]
fn unit_lookup_by_id() {
    let mut d = Desk::new(7, 4);
    let u0 = Unit::new(1, UnitType::Skeleton, 5);
    d.place_unit(Vector2::new(2, 3, 0), u0).unwrap();
    let found = d.get_unit_by_id(5).unwrap();
    assert_eq!(found.unit_id, 5);
    assert_eq!(d.get_unit_by_id(4).unwrap_err(), GameError::UnitNotFound);
}

#[test]
fn stat_tables() {
    let orc1 = UnitStats::new(1, UnitType::Orc);
    assert_eq!(orc1.hp, 40);
    assert_eq!(orc1.max_hp, 40);
    assert_eq!(orc1.damage, 4);
    let orc3 = UnitStats::new(3, UnitType::Orc);
    assert_eq!(orc3.hp, 48);
    assert_eq!(orc3.damage, 6);
    let orc5 = UnitStats::new(5, UnitType::Orc);
    assert_eq!(orc5.hp, 64);
    assert_eq!(orc5.damage, 8);
    let sk1 = UnitStats::new(1, UnitType::Skeleton);
    assert_eq!(sk1.hp, 25);
    assert_eq!(sk1.damage, 10);
    let sk5 = UnitStats::new(5, UnitType::Skeleton);
    assert_eq!(sk5.hp, 40);
    assert_eq!(sk5.damage, 18);
    let mage1 = UnitStats::new(1, UnitType::Mage);
    assert_eq!(mage1.hp, 12);
    assert_eq!(mage1.damage, 8);
    let mage2 = UnitStats::new(2, UnitType::Mage);
    assert_eq!(mage2.hp, 15);
    assert_eq!(mage2.damage, 10);
    let out = UnitStats::new(6, UnitType::Orc);
    assert_eq!(out.hp, 0);
    assert_eq!(out.damage, 0);
    let neg = UnitStats::new(-1, UnitType::Mage);
    assert_eq!(neg.hp, 0);
    assert_eq!(neg.damage, 0);
}

#[test]
fn unit_kind_codes() {
    assert_eq!(Unit::get_unit_type_by_id(0), UnitType::Mage);
    assert_eq!(Unit::get_unit_type_by_id(1), UnitType::Orc);
    assert_eq!(Unit::get_unit_type_by_id(2), UnitType::Skeleton);
}

#[test]
fn footprint_shapes_and_clipping() {
    let d = Desk::new(7, 4);
    let orc = d.get_cells_to_deal_damage(Vector2::new(3, 2, 0), UnitType::Orc);
    assert_eq!(orc.len(), 8);
    assert!(orc.iter().all(|c| c.is_some()));
    let mage = d.get_cells_to_deal_damage(Vector2::new(3, 2, 0), UnitType::Mage);
    assert_eq!(mage.len(), 8);
    let skel = d.get_cells_to_deal_damage(Vector2::new(3, 2, 0), UnitType::Skeleton);
    assert_eq!(skel.len(), 4);
    // a corner keeps only the on-board part of the footprint
    let corner = d.get_cells_to_deal_damage(Vector2::new(0, 0, 0), UnitType::Orc);
    let present: Vec<bool> = corner.iter().map(|c| c.is_some()).collect();
    // offsets: E, N, W, S, NE, SW, NW, SE
    assert_eq!(present, vec![true, true, false, false, true, false, false, false]);
}

#[test]
fn join_requires_stake_and_free_seat() {
    let mut b = Battle::new(100, ALICE, 0, 7, 4);
    assert_eq!(b.join_battle(BOB, 99).unwrap_err(), GameError::InsufficientStake);
    assert_eq!(b.current_state, Phase::WaitingForOpponent);
    b.join_battle(BOB, 100).unwrap();
    assert_eq!(b.current_state, Phase::PlacingUnits);
    assert_eq!(b.join_battle(STRANGER, 500).unwrap_err(), GameError::BattleFull);
}

#[test]
fn placement_rules() {
    let mut b = joined_battle();
    // a stranger may not place
    assert_eq!(
        b.place_units(vec![(1, 0, 0)], STRANGER).unwrap_err(),
        GameError::IllegalPlacement
    );
    // the first player may not place beyond column 2
    assert_eq!(
        b.place_units(vec![(1, 3, 0)], ALICE).unwrap_err(),
        GameError::IllegalPlacement
    );
    // the second player may not place below column 4
    assert_eq!(
        b.place_units(vec![(1, 3, 0)], BOB).unwrap_err(),
        GameError::IllegalPlacement
    );
    // an unknown kind code is refused
    assert_eq!(
        b.place_units(vec![(3, 0, 0)], ALICE).unwrap_err(),
        GameError::IllegalPlacement
    );
    // more than six in one batch is refused
    let batch: Vec<(i8, i8, i8)> = (0..7).map(|y| (1, 0, y % 4)).collect();
    assert_eq!(b.place_units(batch, ALICE).unwrap_err(), GameError::IllegalPlacement);
    // a failing batch places nothing at all
    assert_eq!(
        b.place_units(vec![(1, 0, 0), (1, 3, 1)], ALICE).unwrap_err(),
        GameError::IllegalPlacement
    );
    assert!(b.desk.get_cell_at(0, 0).unwrap().unit.is_none());
    assert!(b.first_player_units.is_empty());
    // a batch reusing one cell twice is refused wholly
    assert_eq!(
        b.place_units(vec![(1, 0, 0), (2, 0, 0)], ALICE).unwrap_err(),
        GameError::IllegalPlacement
    );
    assert!(b.desk.get_cell_at(0, 0).unwrap().unit.is_none());
}

#[test]
fn roster_never_exceeds_six() {
    let mut b = joined_battle();
    let six: Vec<(i8, i8, i8)> = vec![
        (1, 0, 0),
        (1, 0, 1),
        (1, 0, 2),
        (1, 0, 3),
        (1, 1, 0),
        (1, 1, 1),
    ];
    b.place_units(six, ALICE).unwrap();
    assert_eq!(b.first_player_units.len(), 6);
    // the cumulative cap refuses a seventh
    assert_eq!(
        b.place_units(vec![(1, 1, 2)], ALICE).unwrap_err(),
        GameError::IllegalPlacement
    );
    assert_eq!(b.first_player_units.len(), 6);
}

#[test]
fn phase_advances_once_both_sides_placed() {
    let mut b = joined_battle();
    b.place_units(vec![(1, 0, 0)], ALICE).unwrap();
    assert_eq!(b.current_state, Phase::PlacingUnits);
    b.place_units(vec![(0, 6, 0)], BOB).unwrap();
    assert_eq!(b.current_state, Phase::InProgress);
    assert_eq!(b.current_move_owner, 0);
    // placement is over once the battle is in progress
    assert_eq!(
        b.place_units(vec![(1, 0, 1)], ALICE).unwrap_err(),
        GameError::WrongPhase
    );
}

#[test]
fn move_before_battle_starts_is_wrong_phase() {
    let mut b = joined_battle();
    b.place_units(vec![(1, 0, 0)], ALICE).unwrap();
    assert_eq!(
        b.make_move(0, vec![(0, 0), (1, 0)], ALICE).unwrap_err(),
        GameError::WrongPhase
    );
}

/// An Orc stepping one cell splashes its base damage around the destination
/// and misses the far-away Mage.
#[test]
fn orc_step_splashes_base_damage() {
    let mut b = joined_battle();
    b.place_units(vec![(1, 0, 0)], ALICE).unwrap();
    b.place_units(vec![(0, 6, 0)], BOB).unwrap();
    assert_eq!(b.current_state, Phase::InProgress);
    assert_eq!(b.current_move_owner, 0);
    let w = b.make_move(0, vec![(0, 0), (1, 0)], ALICE).unwrap();
    assert!(w.is_none());
    // the orc moved
    assert!(b.desk.get_cell_at(0, 0).unwrap().unit.is_none());
    assert_eq!(b.desk.get_cell_at(1, 0).unwrap().unit.unwrap().unit_id, 0);
    // the mage is outside the 8-cell footprint around (1, 0) and untouched
    let mage = b.desk.get_unit_by_id(1).unwrap();
    assert_eq!(mage.stats.hp, 12);
    assert_eq!(b.second_player_units, vec![1]);
    assert_eq!(b.current_state, Phase::InProgress);
    assert_eq!(b.current_move_owner, 1);
}

#[test]
fn turn_owner_alternates() {
    let mut b = joined_battle();
    b.place_units(vec![(1, 0, 0)], ALICE).unwrap();
    b.place_units(vec![(0, 6, 0)], BOB).unwrap();
    assert_eq!(b.current_move_owner, 0);
    // out of turn: the second player may not start
    assert_eq!(
        b.make_move(1, vec![(6, 0), (6, 1)], BOB).unwrap_err(),
        GameError::NotYourTurn
    );
    b.make_move(0, vec![(0, 0), (1, 0)], ALICE).unwrap();
    assert_eq!(b.current_move_owner, 1);
    // and now the first player must wait
    assert_eq!(
        b.make_move(0, vec![(1, 0), (2, 0)], ALICE).unwrap_err(),
        GameError::NotYourTurn
    );
    b.make_move(1, vec![(6, 0), (6, 1)], BOB).unwrap();
    assert_eq!(b.current_move_owner, 0);
}

#[test]
fn moving_anothers_unit_is_refused() {
    let mut b = joined_battle();
    b.place_units(vec![(1, 0, 0)], ALICE).unwrap();
    b.place_units(vec![(0, 6, 0)], BOB).unwrap();
    assert_eq!(
        b.make_move(1, vec![(6, 0), (6, 1)], ALICE).unwrap_err(),
        GameError::UnitNotOwned
    );
    assert_eq!(
        b.make_move(0, vec![(0, 0), (1, 0)], STRANGER).unwrap_err(),
        GameError::UnitNotOwned
    );
}

#[test]
fn bad_path_geometry_is_illegal_and_mutates_nothing() {
    let mut b = joined_battle();
    b.place_units(vec![(1, 0, 0)], ALICE).unwrap();
    b.place_units(vec![(0, 6, 0)], BOB).unwrap();
    // diagonal
    assert_eq!(
        b.make_move(0, vec![(0, 0), (1, 1)], ALICE).unwrap_err(),
        GameError::IllegalMove
    );
    // zero distance
    assert_eq!(
        b.make_move(0, vec![(0, 0), (0, 0)], ALICE).unwrap_err(),
        GameError::IllegalMove
    );
    // distance three
    assert_eq!(
        b.make_move(0, vec![(0, 0), (3, 0)], ALICE).unwrap_err(),
        GameError::IllegalMove
    );
    // empty path
    assert_eq!(b.make_move(0, vec![], ALICE).unwrap_err(), GameError::IllegalMove);
    // a path that does not start at the unit's cell
    assert_eq!(
        b.make_move(0, vec![(0, 1), (1, 1)], ALICE).unwrap_err(),
        GameError::IllegalMove
    );
    // a waypoint off the board
    assert_eq!(
        b.make_move(0, vec![(0, 0), (0, -1)], ALICE).unwrap_err(),
        GameError::IllegalMove
    );
    // nothing moved, nobody was hurt, the turn did not change
    assert_eq!(b.desk.get_cell_at(0, 0).unwrap().unit.unwrap().unit_id, 0);
    assert_eq!(b.desk.get_unit_by_id(1).unwrap().stats.hp, 12);
    assert_eq!(b.current_move_owner, 0);
}

#[test]
fn unissued_unit_id_is_not_owned() {
    let mut b = joined_battle();
    b.place_units(vec![(1, 0, 0), (1, 0, 1)], ALICE).unwrap();
    b.place_units(vec![(0, 6, 0)], BOB).unwrap();
    // id 5 was never issued, so the first roster cannot hold it
    assert_eq!(
        b.make_move(5, vec![(0, 0), (1, 0)], ALICE).unwrap_err(),
        GameError::UnitNotOwned
    );
}

/// Relocation overwrites the destination cell without touching rosters; a
/// rostered unit that was overwritten can no longer be found on the board.
#[test]
fn overwritten_unit_is_unit_not_found() {
    let mut b = joined_battle();
    b.place_units(vec![(1, 0, 0), (2, 1, 0)], ALICE).unwrap();
    b.place_units(vec![(0, 6, 3)], BOB).unwrap();
    // the orc steps onto its own skeleton's cell, overwriting it
    b.make_move(0, vec![(0, 0), (1, 0)], ALICE).unwrap();
    assert_eq!(b.desk.get_cell_at(1, 0).unwrap().unit.unwrap().unit_id, 0);
    assert_eq!(b.first_player_units, vec![0, 1]);
    b.make_move(2, vec![(6, 3), (6, 2)], BOB).unwrap();
    // the skeleton's id is still rostered but its unit is gone
    assert_eq!(
        b.make_move(1, vec![(1, 0), (1, 1)], ALICE).unwrap_err(),
        GameError::UnitNotFound
    );
}

/// A two-cell segment needs an occupied intermediate cell and multiplies the
/// damage by 1.5; without support it is illegal and mutates nothing.
#[test]
fn jump_scales_damage_and_needs_support() {
    // supported jump: an orc leaps over a skeleton, hitting with 4 * 1.5 = 6
    let mut b = joined_battle();
    b.place_units(vec![(1, 0, 0), (2, 1, 0)], ALICE).unwrap();
    b.place_units(vec![(2, 4, 0), (0, 6, 3)], BOB).unwrap();
    let w = b.make_move(0, vec![(0, 0), (2, 0)], ALICE).unwrap();
    assert!(w.is_none());
    assert_eq!(b.desk.get_cell_at(2, 0).unwrap().unit.unwrap().unit_id, 0);
    // the orc's splash around (2, 0) reaches its own skeleton at (1, 0)
    assert_eq!(b.desk.get_unit_by_id(1).unwrap().stats.hp, 25 - 6);
    // and does not reach the enemy skeleton at (4, 0)
    assert_eq!(b.desk.get_unit_by_id(2).unwrap().stats.hp, 25);

    // unsupported jump: the same move without the intermediate unit fails
    let mut c = joined_battle();
    c.place_units(vec![(1, 0, 0)], ALICE).unwrap();
    c.place_units(vec![(0, 6, 3)], BOB).unwrap();
    assert_eq!(
        c.make_move(0, vec![(0, 0), (2, 0)], ALICE).unwrap_err(),
        GameError::IllegalMove
    );
    assert_eq!(c.desk.get_cell_at(0, 0).unwrap().unit.unwrap().unit_id, 0);
    assert!(c.desk.get_cell_at(2, 0).unwrap().unit.is_none());
}

/// A level-1 Skeleton (25 hp) takes two Skeleton hits of 10 and survives;
/// the third hit removes it from the board and from its roster exactly once.
#[test]
fn skeleton_dies_on_the_third_hit() {
    let mut b = joined_battle();
    b.place_units(vec![(2, 2, 0)], ALICE).unwrap();
    b.place_units(vec![(2, 4, 0), (0, 6, 3)], BOB).unwrap();
    assert_eq!(b.second_player_units, vec![1, 2]);

    // first hit: 25 -> 15
    b.make_move(0, vec![(2, 0), (3, 0)], ALICE).unwrap();
    assert_eq!(b.desk.get_unit_by_id(1).unwrap().stats.hp, 15);
    b.make_move(2, vec![(6, 3), (6, 2)], BOB).unwrap();
    // step away and back
    b.make_move(0, vec![(3, 0), (2, 0)], ALICE).unwrap();
    b.make_move(2, vec![(6, 2), (6, 3)], BOB).unwrap();
    // second hit: 15 -> 5, still alive
    b.make_move(0, vec![(2, 0), (3, 0)], ALICE).unwrap();
    assert_eq!(b.desk.get_unit_by_id(1).unwrap().stats.hp, 5);
    assert_eq!(b.second_player_units, vec![1, 2]);
    b.make_move(2, vec![(6, 3), (6, 2)], BOB).unwrap();
    b.make_move(0, vec![(3, 0), (2, 0)], ALICE).unwrap();
    b.make_move(2, vec![(6, 2), (6, 3)], BOB).unwrap();
    // third hit: 5 <= 10, the skeleton dies and leaves cell and roster
    let w = b.make_move(0, vec![(2, 0), (3, 0)], ALICE).unwrap();
    assert!(w.is_none());
    assert!(b.desk.get_cell_at(4, 0).unwrap().unit.is_none());
    assert_eq!(b.desk.get_unit_by_id(1).unwrap_err(), GameError::UnitNotFound);
    assert_eq!(b.second_player_units, vec![2]);
    assert_eq!(b.current_state, Phase::InProgress);
}

/// Emptying a side's roster finishes the battle, names the opponent winner,
/// and refuses every further command with WrongPhase.
#[test]
fn emptied_roster_finishes_the_battle() {
    let mut b = joined_battle();
    b.place_units(vec![(2, 2, 0)], ALICE).unwrap();
    b.place_units(vec![(0, 4, 0)], BOB).unwrap();

    // skeleton (damage 10) vs mage (12 hp): two hits
    b.make_move(0, vec![(2, 0), (3, 0)], ALICE).unwrap();
    assert_eq!(b.desk.get_unit_by_id(1).unwrap().stats.hp, 2);
    b.make_move(1, vec![(4, 0), (4, 1)], BOB).unwrap();
    let w = b.make_move(0, vec![(3, 0), (3, 1)], ALICE).unwrap();
    assert_eq!(w, Some(ALICE));
    assert_eq!(b.winner, Some(ALICE));
    assert_eq!(b.current_state, Phase::Finished);
    assert!(b.second_player_units.is_empty());
    // the battle accepts nothing further
    assert_eq!(
        b.make_move(1, vec![(3, 1), (3, 2)], BOB).unwrap_err(),
        GameError::WrongPhase
    );
    assert_eq!(
        b.place_units(vec![(0, 6, 3)], BOB).unwrap_err(),
        GameError::WrongPhase
    );
}

/// Area damage ignores allegiance: a unit's splash hurts its own side too.
#[test]
fn friendly_fire_is_preserved() {
    let mut b = joined_battle();
    b.place_units(vec![(1, 0, 0), (2, 1, 1)], ALICE).unwrap();
    b.place_units(vec![(0, 6, 3)], BOB).unwrap();
    // the orc steps to (1, 0); its splash reaches its own skeleton at (1, 1)
    b.make_move(0, vec![(0, 0), (1, 0)], ALICE).unwrap();
    assert_eq!(b.desk.get_unit_by_id(1).unwrap().stats.hp, 25 - 4);
}

/// With several jumping segments the damage multiplier comes from the last
/// one and overwrites earlier values: jumps at segments 0 and 2 give
/// 10 * (1 + 0.5 * 3) = 25, not 15.
#[test]
fn damage_uses_the_last_jumping_segment() {
    let mut b = joined_battle();
    b.place_units(vec![(2, 0, 0), (1, 1, 0), (1, 1, 1)], ALICE).unwrap();
    b.place_units(vec![(0, 6, 3)], BOB).unwrap();
    let path = vec![(0, 0), (2, 0), (2, 1), (0, 1)];
    b.make_move(0, path, ALICE).unwrap();
    assert_eq!(b.desk.get_cell_at(0, 1).unwrap().unit.unwrap().unit_id, 0);
    // the skeleton's splash around (0, 1) reaches the orc at (1, 1)
    assert_eq!(b.desk.get_unit_by_id(2).unwrap().stats.hp, 40 - 25);
    // the orc at (1, 0) is not orthogonally adjacent to (0, 1) and is spared
    assert_eq!(b.desk.get_unit_by_id(1).unwrap().stats.hp, 40);
}

#[test]
fn largest_board_and_empty_board() {
    let d = Desk::new(16, 8);
    assert_eq!(d.cells.len(), 128);
    assert_eq!(d.get_cell_at(15, 7).unwrap().position.id, 127);
    let e = Desk::new(0, 0);
    assert_eq!(e.cells.len(), 0);
    assert_eq!(e.get_cell_at(0, 0).unwrap_err(), GameError::PositionNotFound);
}
