use vstd::prelude::*;

use crate::Vector2;

verus! {

/// The closed set of unit archetypes.
#[derive(Clone, Copy, PartialEq, Eq, Structural, Debug)]
pub enum UnitType {
    Orc,
    Mage,
    Skeleton,
}

/// Hit points a unit of the given kind starts with at the given level.
/// Levels outside 1..=5 derive to 0.
pub open spec fn hp_for(unit_type: UnitType, level: int) -> u32 {
    match unit_type {
        UnitType::Mage => if 1 <= level <= 5 {
            (12 + 3 * (level - 1)) as u32
        } else {
            0
        },
        UnitType::Orc => if level == 1 {
            40
        } else if level == 2 {
            42
        } else if level == 3 {
            48
        } else if level == 4 {
            56
        } else if level == 5 {
            64
        } else {
            0
        },
        UnitType::Skeleton => if level == 1 {
            25
        } else if level == 2 {
            27
        } else if level == 3 {
            30
        } else if level == 4 {
            35
        } else if level == 5 {
            40
        } else {
            0
        },
    }
}

/// Base damage a unit of the given kind deals at the given level.
/// Levels outside 1..=5 derive to 0. Every value of this table is even,
/// so the jump multiplier (a whole number of halves) always yields a whole
/// amount of damage.
pub open spec fn damage_for(unit_type: UnitType, level: int) -> u32 {
    match unit_type {
        UnitType::Mage => if 1 <= level <= 5 {
            (8 + 2 * (level - 1)) as u32
        } else {
            0
        },
        UnitType::Orc => if level == 1 {
            4
        } else if level == 2 {
            6
        } else if level == 3 {
            6
        } else if level == 4 {
            8
        } else if level == 5 {
            8
        } else {
            0
        },
        UnitType::Skeleton => if 1 <= level <= 5 {
            (10 + 2 * (level - 1)) as u32
        } else {
            0
        },
    }
}

/// A unit's current and derived combat numbers. `hp` never exceeds `max_hp`.
#[derive(Clone, Copy, PartialEq, Eq, Structural, Debug)]
pub struct UnitStats {
    pub hp: u32,
    pub damage: u32,
    pub max_hp: u32,
}

impl UnitStats {
    pub fn new(unit_level: i8, unit_type: UnitType) -> (s: UnitStats)
        ensures
            s.hp == hp_for(unit_type, unit_level as int),
            s.max_hp == hp_for(unit_type, unit_level as int),
            s.damage == damage_for(unit_type, unit_level as int),
            s.hp <= s.max_hp,
            s.damage % 2 == 0,
    {
        UnitStats {
            hp: UnitStats::get_unit_hp_by_level(unit_level, unit_type),
            damage: UnitStats::get_unit_damage_by_level(unit_level, unit_type),
            max_hp: UnitStats::get_unit_hp_by_level(unit_level, unit_type),
        }
    }

    fn get_unit_hp_by_level(level: i8, unit_type: UnitType) -> (hp: u32)
        ensures
            hp == hp_for(unit_type, level as int),
    {
        match unit_type {
            UnitType::Mage => if 1 <= level && level <= 5 {
                12 + 3 * (level as u32 - 1)
            } else {
                0
            },
            UnitType::Orc => match level {
                1 => 40,
                2 => 42,
                3 => 48,
                4 => 56,
                5 => 64,
                _ => 0,
            },
            UnitType::Skeleton => match level {
                1 => 25,
                2 => 27,
                3 => 30,
                4 => 35,
                5 => 40,
                _ => 0,
            },
        }
    }

    fn get_unit_damage_by_level(level: i8, unit_type: UnitType) -> (damage: u32)
        ensures
            damage == damage_for(unit_type, level as int),
    {
        match unit_type {
            UnitType::Mage => if 1 <= level && level <= 5 {
                8 + 2 * (level as u32 - 1)
            } else {
                0
            },
            UnitType::Orc => match level {
                1 => 4,
                2 => 6,
                3 => 6,
                4 => 8,
                5 => 8,
                _ => 0,
            },
            UnitType::Skeleton => if 1 <= level && level <= 5 {
                10 + 2 * (level as u32 - 1)
            } else {
                0
            },
        }
    }
}

/// A combatant: archetype, level, derived stats, last recorded position and a
/// stable identifier, unique within one battle for the unit's lifetime.
#[derive(Clone, Copy, PartialEq, Eq, Structural, Debug)]
pub struct Unit {
    pub unit_type: UnitType,
    pub level: i8,
    pub stats: UnitStats,
    pub current_position: Vector2,
    pub unit_id: i8,
}

/// The unit that `Unit::new` builds: stats derived from kind and level, the
/// placeholder position, and the given id.
pub open spec fn unit_new(level: i8, t: UnitType, id: i8) -> Unit {
    Unit {
        unit_type: t,
        level,
        stats: UnitStats {
            hp: hp_for(t, level as int),
            damage: damage_for(t, level as int),
            max_hp: hp_for(t, level as int),
        },
        current_position: Vector2 { x: 0, y: 0, id: -1i8 },
        unit_id: id,
    }
}

/// The archetype encoded by a small integer in placement commands.
pub open spec fn unit_type_of_id(id: int) -> UnitType {
    if id == 0 {
        UnitType::Mage
    } else if id == 1 {
        UnitType::Orc
    } else {
        UnitType::Skeleton
    }
}

impl Unit {
    pub fn new(unit_level: i8, _unit_type: UnitType, id: i8) -> (u: Unit)
        ensures
            u.level == unit_level,
            u.unit_type == _unit_type,
            u.stats.hp == hp_for(_unit_type, unit_level as int),
            u.stats.max_hp == hp_for(_unit_type, unit_level as int),
            u.stats.damage == damage_for(_unit_type, unit_level as int),
            u.current_position == (Vector2 { x: 0, y: 0, id: -1i8 }),
            u.unit_id == id,
            u == unit_new(unit_level, _unit_type, id),
    {
        Unit {
            level: unit_level,
            stats: UnitStats::new(unit_level, _unit_type),
            unit_type: _unit_type,
            current_position: Vector2 { x: 0, y: 0, id: -1 },
            unit_id: id,
        }
    }

    pub fn get_unit_type_by_id(id: i8) -> (t: UnitType)
        requires
            0 <= id <= 2,
        ensures
            t == unit_type_of_id(id as int),
    {
        match id {
            0 => UnitType::Mage,
            1 => UnitType::Orc,
            _ => UnitType::Skeleton,
        }
    }
}

} // verus!
