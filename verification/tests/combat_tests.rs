use dungeon_core::combat::{
    compute_damage, defensive_item_bonus, is_well_fed, offensive_item_bonus, CombatError,
    CombatStats, CombatWorld, EquippedItem, HungerClock, HungerState, MeleeCombatSystem,
    MeleeIntent, ParticleRequest, Position,
};

fn stats(hp: i32, power: i32, defense: i32) -> Option<CombatStats> {
    Some(CombatStats {
        hp,
        max_hp: hp,
        power,
        defense,
    })
}

fn world_with(entities: usize) -> CombatWorld {
    CombatWorld {
        stats: vec![None; entities],
        names: vec![None; entities],
        hunger: vec![None; entities],
        positions: vec![None; entities],
        equipped_items: Vec::new(),
        pending_damage: vec![Vec::new(); entities],
        log: Vec::new(),
        particles: Vec::new(),
        melee_intents: Vec::new(),
    }
}

#[test]
fn plain_hit_deals_power_minus_defense() {
    let mut w = world_with(2);
    w.stats[0] = stats(30, 10, 0);
    w.stats[1] = stats(16, 3, 3);
    w.names[0] = Some("Hero".to_string());
    w.names[1] = Some("Orc".to_string());
    w.melee_intents.push(MeleeIntent {
        attacker: 0,
        target: 1,
    });
    let mut system = MeleeCombatSystem {};
    let r = system.run(&mut w);
    assert_eq!(r, Ok(()));
    assert_eq!(w.log, vec!["Hero hits Orc, for 7 hp.".to_string()]);
    assert_eq!(w.pending_damage[1], vec![7]);
    assert!(w.pending_damage[0].is_empty());
    assert!(w.melee_intents.is_empty());
}

#[test]
fn outmatched_attacker_is_unable_to_hurt() {
    let mut w = world_with(2);
    w.stats[0] = stats(30, 10, 0);
    w.stats[1] = stats(16, 3, 15);
    w.names[0] = Some("Hero".to_string());
    w.names[1] = Some("Golem".to_string());
    w.melee_intents.push(MeleeIntent {
        attacker: 0,
        target: 1,
    });
    let mut system = MeleeCombatSystem {};
    let r = system.run(&mut w);
    assert_eq!(r, Ok(()));
    assert_eq!(w.log, vec!["Hero is unable to hurt Golem".to_string()]);
    assert!(w.pending_damage[1].is_empty());
}

#[test]
fn well_fed_and_equipment_bonuses_add_up() {
    // well-fed attacker, base power 5, +2 equipped, vs defense 4: 5+2+1-4 = 4
    let mut w = world_with(3);
    w.stats[0] = stats(20, 5, 0);
    w.stats[1] = stats(20, 2, 4);
    w.names[0] = Some("Hero".to_string());
    w.names[1] = Some("Goblin".to_string());
    w.hunger[0] = Some(HungerClock {
        state: HungerState::WellFed,
        duration: 20,
    });
    w.equipped_items.push(EquippedItem {
        owner: 0,
        power_bonus: 2,
        defense_bonus: 0,
    });
    w.melee_intents.push(MeleeIntent {
        attacker: 0,
        target: 1,
    });
    let mut system = MeleeCombatSystem {};
    assert_eq!(system.run(&mut w), Ok(()));
    assert_eq!(w.log, vec!["Hero hits Goblin, for 4 hp.".to_string()]);
    assert_eq!(w.pending_damage[1], vec![4]);
}

#[test]
fn other_hunger_states_give_no_bonus() {
    let mut w = world_with(2);
    w.stats[0] = stats(20, 5, 0);
    w.stats[1] = stats(20, 2, 4);
    w.names[0] = Some("Hero".to_string());
    w.names[1] = Some("Goblin".to_string());
    w.hunger[0] = Some(HungerClock {
        state: HungerState::Hungry,
        duration: 20,
    });
    assert_eq!(compute_damage(&w, 0, 1), 1);
    assert!(!is_well_fed(&w.hunger, 0));
}

#[test]
fn defense_equipment_protects_the_target() {
    let mut w = world_with(2);
    w.stats[0] = stats(20, 10, 0);
    w.stats[1] = stats(20, 2, 3);
    w.equipped_items.push(EquippedItem {
        owner: 1,
        power_bonus: 0,
        defense_bonus: 5,
    });
    // someone else's shield does not help
    w.equipped_items.push(EquippedItem {
        owner: 0,
        power_bonus: 0,
        defense_bonus: 40,
    });
    assert_eq!(compute_damage(&w, 0, 1), 2);
    assert_eq!(defensive_item_bonus(&w.equipped_items, 1), 5);
    assert_eq!(offensive_item_bonus(&w.equipped_items, 0), 0);
}

#[test]
fn damage_never_goes_negative() {
    let mut w = world_with(2);
    w.stats[0] = stats(20, 1, 0);
    w.stats[1] = stats(20, 2, 50);
    assert_eq!(compute_damage(&w, 0, 1), 0);
}

#[test]
fn dead_attacker_and_dead_target_are_skipped() {
    let mut w = world_with(4);
    w.stats[0] = stats(0, 10, 0); // dead attacker
    w.stats[1] = stats(16, 3, 0);
    w.stats[2] = stats(10, 8, 0);
    w.stats[3] = stats(0, 1, 0); // dead target
    for (e, name) in [(0, "Ghost"), (1, "Orc"), (2, "Hero"), (3, "Corpse")] {
        w.names[e] = Some(name.to_string());
    }
    w.melee_intents.push(MeleeIntent {
        attacker: 0,
        target: 1,
    });
    w.melee_intents.push(MeleeIntent {
        attacker: 2,
        target: 3,
    });
    let mut system = MeleeCombatSystem {};
    assert_eq!(system.run(&mut w), Ok(()));
    assert!(w.log.is_empty());
    assert!(w.pending_damage.iter().all(|d| d.is_empty()));
    assert!(w.melee_intents.is_empty());
}

#[test]
fn missing_target_stats_reports_and_skips() {
    let mut w = world_with(3);
    w.stats[0] = stats(20, 10, 0);
    w.names[0] = Some("Hero".to_string());
    // entity 1 has no stats at all
    w.names[1] = Some("Mirage".to_string());
    w.stats[2] = stats(12, 1, 1);
    w.names[2] = Some("Rat".to_string());
    w.melee_intents.push(MeleeIntent {
        attacker: 0,
        target: 1,
    });
    w.melee_intents.push(MeleeIntent {
        attacker: 0,
        target: 2,
    });
    let mut system = MeleeCombatSystem {};
    let r = system.run(&mut w);
    assert_eq!(r, Err(CombatError::MissingRequiredComponent));
    // the bad intent was a safe no-op; the good one still resolved
    assert_eq!(w.log, vec!["Hero hits Rat, for 9 hp.".to_string()]);
    assert_eq!(w.pending_damage[2], vec![9]);
    assert!(w.melee_intents.is_empty());
}

#[test]
fn attacker_without_components_is_silently_skipped() {
    let mut w = world_with(2);
    // entity 0 has no stats or name: it is no combatant, the join skips it
    w.stats[1] = stats(16, 3, 0);
    w.names[1] = Some("Orc".to_string());
    w.melee_intents.push(MeleeIntent {
        attacker: 0,
        target: 1,
    });
    let mut system = MeleeCombatSystem {};
    assert_eq!(system.run(&mut w), Ok(()));
    assert!(w.log.is_empty());
}

#[test]
fn particle_is_requested_at_the_target_position() {
    let mut w = world_with(2);
    w.stats[0] = stats(20, 10, 0);
    w.stats[1] = stats(16, 3, 3);
    w.names[0] = Some("Hero".to_string());
    w.names[1] = Some("Orc".to_string());
    w.positions[1] = Some(Position { x: 11, y: 7 });
    w.melee_intents.push(MeleeIntent {
        attacker: 0,
        target: 1,
    });
    let mut system = MeleeCombatSystem {};
    assert_eq!(system.run(&mut w), Ok(()));
    assert_eq!(
        w.particles,
        vec![ParticleRequest {
            x: 11,
            y: 7,
            lifetime_ms: 200
        }]
    );
}

#[test]
fn target_without_position_gets_no_particle() {
    let mut w = world_with(2);
    w.stats[0] = stats(20, 10, 0);
    w.stats[1] = stats(16, 3, 3);
    w.names[0] = Some("Hero".to_string());
    w.names[1] = Some("Orc".to_string());
    w.melee_intents.push(MeleeIntent {
        attacker: 0,
        target: 1,
    });
    let mut system = MeleeCombatSystem {};
    assert_eq!(system.run(&mut w), Ok(()));
    assert!(w.particles.is_empty());
}

#[test]
fn intents_are_processed_at_most_once() {
    let mut w = world_with(2);
    w.stats[0] = stats(20, 10, 0);
    w.stats[1] = stats(16, 3, 3);
    w.names[0] = Some("Hero".to_string());
    w.names[1] = Some("Orc".to_string());
    w.melee_intents.push(MeleeIntent {
        attacker: 0,
        target: 1,
    });
    let mut system = MeleeCombatSystem {};
    assert_eq!(system.run(&mut w), Ok(()));
    assert_eq!(w.log.len(), 1);
    assert_eq!(w.pending_damage[1], vec![7]);
    // the queue was cleared; a second pass adds nothing
    assert_eq!(system.run(&mut w), Ok(()));
    assert_eq!(w.log.len(), 1);
    assert_eq!(w.pending_damage[1], vec![7]);
}

#[test]
fn intents_resolve_in_arrival_order() {
    let mut w = world_with(3);
    w.stats[0] = stats(20, 10, 0);
    w.stats[1] = stats(16, 3, 3);
    w.stats[2] = stats(16, 5, 1);
    w.names[0] = Some("Hero".to_string());
    w.names[1] = Some("Orc".to_string());
    w.names[2] = Some("Goblin".to_string());
    w.melee_intents.push(MeleeIntent {
        attacker: 2,
        target: 0,
    });
    w.melee_intents.push(MeleeIntent {
        attacker: 0,
        target: 1,
    });
    let mut system = MeleeCombatSystem {};
    assert_eq!(system.run(&mut w), Ok(()));
    assert_eq!(
        w.log,
        vec![
            "Goblin hits Hero, for 5 hp.".to_string(),
            "Hero hits Orc, for 7 hp.".to_string(),
        ]
    );
    assert_eq!(w.pending_damage[0], vec![5]);
    assert_eq!(w.pending_damage[1], vec![7]);
}

#[test]
fn bonus_sums_scan_all_equipped_items() {
    let items = vec![
        EquippedItem {
            owner: 4,
            power_bonus: 2,
            defense_bonus: 1,
        },
        EquippedItem {
            owner: 4,
            power_bonus: 3,
            defense_bonus: 0,
        },
        EquippedItem {
            owner: 9,
            power_bonus: 100,
            defense_bonus: 100,
        },
        EquippedItem {
            owner: 4,
            power_bonus: -1,
            defense_bonus: 2,
        },
    ];
    assert_eq!(offensive_item_bonus(&items, 4), 4);
    assert_eq!(defensive_item_bonus(&items, 4), 3);
    assert_eq!(offensive_item_bonus(&items, 2), 0);
}
