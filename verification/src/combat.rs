use vstd::prelude::*;

verus! {

/// Per-combatant statistics; hp is mutated by the external damage-application
/// step and by leveling, both outside this core.
#[derive(PartialEq, Eq, Structural, Clone, Copy, Debug)]
pub struct CombatStats {
    pub hp: i32,
    pub max_hp: i32,
    pub power: i32,
    pub defense: i32,
}

/// The hunger states a combatant can be in; only the well-fed state modifies
/// combat in this core.
#[derive(PartialEq, Eq, Structural, Clone, Copy, Debug)]
pub enum HungerState {
    WellFed,
    Normal,
    Hungry,
    Starving,
}

#[derive(PartialEq, Eq, Structural, Clone, Copy, Debug)]
pub struct HungerClock {
    pub state: HungerState,
    pub duration: i32,
}

/// A grid position, for the cosmetic particle that combat emits at the target.
#[derive(PartialEq, Eq, Structural, Clone, Copy, Debug)]
pub struct Position {
    pub x: i32,
    pub y: i32,
}

/// An item equipped by some entity, with its additive combat modifiers; an
/// item that carries no bonus of a kind contributes zero.
#[derive(PartialEq, Eq, Structural, Clone, Copy, Debug)]
pub struct EquippedItem {
    pub owner: usize,
    pub power_bonus: i32,
    pub defense_bonus: i32,
}

/// One queued attack request, processed at most once per turn then discarded.
#[derive(PartialEq, Eq, Structural, Clone, Copy, Debug)]
pub struct MeleeIntent {
    pub attacker: usize,
    pub target: usize,
}

/// A cosmetic timed particle event, consumed by the external renderer.
#[derive(PartialEq, Eq, Structural, Clone, Copy, Debug)]
pub struct ParticleRequest {
    pub x: i32,
    pub y: i32,
    pub lifetime_ms: u32,
}

/// The error kind of the resolver: combat resolution reached an entity that
/// lacks a required component. The resolver skips such an intent safely and
/// reports the condition loudly in its result.
#[derive(PartialEq, Eq, Structural, Clone, Copy, Debug)]
pub enum CombatError {
    MissingRequiredComponent,
}

/// Sum of the power bonuses of every listed item equipped by `owner`.
pub open spec fn sum_power_bonus(items: Seq<EquippedItem>, owner: usize) -> int
    decreases items.len(),
{
    if items.len() == 0 {
        0
    } else {
        sum_power_bonus(items.drop_last(), owner) + if items.last().owner == owner {
            items.last().power_bonus as int
        } else {
            0
        }
    }
}

/// Sum of the defense bonuses of every listed item equipped by `owner`.
pub open spec fn sum_defense_bonus(items: Seq<EquippedItem>, owner: usize) -> int
    decreases items.len(),
{
    if items.len() == 0 {
        0
    } else {
        sum_defense_bonus(items.drop_last(), owner) + if items.last().owner == owner {
            items.last().defense_bonus as int
        } else {
            0
        }
    }
}

/// Each bonus is a 32-bit value, so a sum over a list is bounded linearly by
/// its length.
pub proof fn lemma_sum_bonus_bounds(items: Seq<EquippedItem>, owner: usize)
    ensures
        -0x8000_0000 * items.len() <= sum_power_bonus(items, owner) <= 0x7fff_ffff * items.len(),
        -0x8000_0000 * items.len() <= sum_defense_bonus(items, owner) <= 0x7fff_ffff
            * items.len(),
    decreases items.len(),
{
    if items.len() > 0 {
        lemma_sum_bonus_bounds(items.drop_last(), owner);
    }
}

/// The decimal digit character of a value below ten.
pub open spec fn dec_digit(d: int) -> char {
    if d == 0 {
        '0'
    } else if d == 1 {
        '1'
    } else if d == 2 {
        '2'
    } else if d == 3 {
        '3'
    } else if d == 4 {
        '4'
    } else if d == 5 {
        '5'
    } else if d == 6 {
        '6'
    } else if d == 7 {
        '7'
    } else if d == 8 {
        '8'
    } else {
        '9'
    }
}

/// The decimal rendering of a nonnegative value, most significant digit first.
pub open spec fn dec_str(n: int) -> Seq<char>
    decreases n,
{
    if n < 10 {
        seq![dec_digit(n)]
    } else {
        dec_str(n / 10).push(dec_digit(n % 10))
    }
}

/// The log line appended when an attack lands.
pub open spec fn hit_line_of(attacker: Seq<char>, target: Seq<char>, damage: int) -> Seq<char> {
    attacker + " hits "@ + target + ", for "@ + dec_str(damage) + " hp."@
}

/// The log line appended when an attack does no damage.
pub open spec fn unable_line_of(attacker: Seq<char>, target: Seq<char>) -> Seq<char> {
    attacker + " is unable to hurt "@ + target
}

/// Relies on std's format! with the Display impls of String and i64: each `{}`
/// inserts the string's characters, and a positive i64 renders as its plain
/// decimal digits.
#[verifier::external_body]
fn format_hit_line(attacker: &String, target: &String, damage: i64) -> (r: String)
    requires
        damage >= 1,
    ensures
        r@ == hit_line_of(attacker@, target@, damage as int),
{
    format!("{} hits {}, for {} hp.", attacker, target, damage)
}

/// Relies on std's format! with the Display impl of String: each `{}` inserts
/// the string's characters.
#[verifier::external_body]
fn format_unable_line(attacker: &String, target: &String) -> (r: String)
    ensures
        r@ == unable_line_of(attacker@, target@),
{
    format!("{} is unable to hurt {}", attacker, target)
}

/// The explicit component tables combat reads and writes, indexed by stable
/// entity identifiers, together with the per-turn intent queue and the three
/// sinks the resolver appends to: the game log, the pending-damage
/// accumulators, and the particle requests.
pub struct CombatWorld {
    pub stats: Vec<Option<CombatStats>>,
    pub names: Vec<Option<String>>,
    pub hunger: Vec<Option<HungerClock>>,
    pub positions: Vec<Option<Position>>,
    pub equipped_items: Vec<EquippedItem>,
    pub pending_damage: Vec<Vec<i64>>,
    pub log: Vec<String>,
    pub particles: Vec<ParticleRequest>,
    pub melee_intents: Vec<MeleeIntent>,
}

/// The log grew by exactly the given lines, in order, after its old contents.
pub open spec fn log_extended(old_log: Seq<String>, new_log: Seq<String>, lines: Seq<Seq<char>>) -> bool {
    &&& new_log.len() == old_log.len() + lines.len()
    &&& (forall|i: int| 0 <= i < old_log.len() ==> new_log[i] == old_log[i])
    &&& (forall|i: int|
        0 <= i < lines.len() ==> (#[trigger] new_log[old_log.len() + i])@ == lines[i])
}

impl CombatWorld {
    /// The component tables are parallel, and the item list is within the
    /// machine bound that keeps every bonus sum inside 64 bits.
    pub open spec fn wf(self) -> bool {
        &&& self.names@.len() == self.stats@.len()
        &&& self.hunger@.len() == self.stats@.len()
        &&& self.positions@.len() == self.stats@.len()
        &&& self.pending_damage@.len() == self.stats@.len()
        &&& self.equipped_items@.len() <= 1_000_000_000
    }

    pub open spec fn has_stats(self, e: usize) -> bool {
        e < self.stats@.len() && self.stats@[e as int] is Some
    }

    pub open spec fn stats_of(self, e: usize) -> CombatStats {
        self.stats@[e as int]->Some_0
    }

    pub open spec fn has_name(self, e: usize) -> bool {
        e < self.names@.len() && self.names@[e as int] is Some
    }

    pub open spec fn name_of(self, e: usize) -> Seq<char> {
        self.names@[e as int]->Some_0@
    }

    pub open spec fn has_position(self, e: usize) -> bool {
        e < self.positions@.len() && self.positions@[e as int] is Some
    }

    pub open spec fn position_of(self, e: usize) -> Position {
        self.positions@[e as int]->Some_0
    }

    /// The attacker's hunger clock is in the well-fed state.
    pub open spec fn well_fed(self, e: usize) -> bool {
        e < self.hunger@.len() && (self.hunger@[e as int] matches Some(hc) && hc.state
            == HungerState::WellFed)
    }

    /// Sum of power bonuses of items equipped by the attacker, plus one if the
    /// attacker is well fed.
    pub open spec fn offensive_bonus(self, e: usize) -> int {
        sum_power_bonus(self.equipped_items@, e) + if self.well_fed(e) {
            1int
        } else {
            0int
        }
    }

    /// Sum of defense bonuses of items equipped by the target.
    pub open spec fn defensive_bonus(self, e: usize) -> int {
        sum_defense_bonus(self.equipped_items@, e)
    }

    /// The melee damage formula: attack power plus offensive bonus, less
    /// defense plus defensive bonus, floored at zero.
    pub open spec fn damage_of(self, attacker: usize, target: usize) -> int {
        let off = self.stats_of(attacker).power + self.offensive_bonus(attacker);
        let def = self.stats_of(target).defense + self.defensive_bonus(target);
        if off - def < 0 {
            0
        } else {
            off - def
        }
    }

    /// The attacker of the intent takes part in combat at all: it has stats and
    /// a name (an intent from anything else is silently skipped) and is alive.
    pub open spec fn attacker_acts(self, it: MeleeIntent) -> bool {
        &&& self.has_stats(it.attacker)
        &&& self.has_name(it.attacker)
        &&& self.stats_of(it.attacker).hp > 0
    }

    /// The intent reaches the target but the target lacks a required component:
    /// stats, or (if alive) a name. An invariant violation, reported loudly and
    /// skipped safely.
    pub open spec fn missing_target_component(self, it: MeleeIntent) -> bool {
        self.attacker_acts(it) && (!self.has_stats(it.target) || (self.stats_of(it.target).hp > 0
            && !self.has_name(it.target)))
    }

    /// The intent is carried through: both ends have their components and are
    /// alive.
    pub open spec fn strikes(self, it: MeleeIntent) -> bool {
        &&& self.attacker_acts(it)
        &&& self.has_stats(it.target)
        &&& self.stats_of(it.target).hp > 0
        &&& self.has_name(it.target)
    }

    /// The log lines one intent appends: one hit or unable line when it
    /// strikes, nothing otherwise.
    pub open spec fn intent_log_lines(self, it: MeleeIntent) -> Seq<Seq<char>> {
        if self.strikes(it) {
            let a = self.name_of(it.attacker);
            let t = self.name_of(it.target);
            let d = self.damage_of(it.attacker, it.target);
            if d == 0 {
                seq![unable_line_of(a, t)]
            } else {
                seq![hit_line_of(a, t, d)]
            }
        } else {
            Seq::empty()
        }
    }

    /// The log lines a whole intent queue appends, in arrival order.
    pub open spec fn log_lines_for(self, intents: Seq<MeleeIntent>) -> Seq<Seq<char>>
        decreases intents.len(),
    {
        if intents.len() == 0 {
            Seq::empty()
        } else {
            self.log_lines_for(intents.drop_last()) + self.intent_log_lines(intents.last())
        }
    }

    /// What one intent appends to entity `e`'s pending-damage accumulator:
    /// the damage when the intent strikes `e` for more than zero, else nothing.
    pub open spec fn intent_damage_to(self, it: MeleeIntent, e: int) -> Seq<i64> {
        if self.strikes(it) && it.target == e && self.damage_of(it.attacker, it.target) > 0 {
            seq![self.damage_of(it.attacker, it.target) as i64]
        } else {
            Seq::empty()
        }
    }

    pub open spec fn damage_appends_for(self, intents: Seq<MeleeIntent>, e: int) -> Seq<i64>
        decreases intents.len(),
    {
        if intents.len() == 0 {
            Seq::empty()
        } else {
            self.damage_appends_for(intents.drop_last(), e) + self.intent_damage_to(
                intents.last(),
                e,
            )
        }
    }

    /// The cosmetic particle one intent emits: at the target's position, when
    /// the intent strikes and the target has one.
    pub open spec fn intent_particles(self, it: MeleeIntent) -> Seq<ParticleRequest> {
        if self.strikes(it) && self.has_position(it.target) {
            seq![
                ParticleRequest {
                    x: self.position_of(it.target).x,
                    y: self.position_of(it.target).y,
                    lifetime_ms: 200,
                },
            ]
        } else {
            Seq::empty()
        }
    }

    pub open spec fn particles_for(self, intents: Seq<MeleeIntent>) -> Seq<ParticleRequest>
        decreases intents.len(),
    {
        if intents.len() == 0 {
            Seq::empty()
        } else {
            self.particles_for(intents.drop_last()) + self.intent_particles(intents.last())
        }
    }

    /// Some intent of the queue hit a missing required component.
    pub open spec fn any_missing_in(self, intents: Seq<MeleeIntent>) -> bool {
        exists|k: int|
            0 <= k < intents.len() && self.missing_target_component(#[trigger] intents[k])
    }

    /// The tables the resolver only reads are untouched.
    pub open spec fn same_read_tables(self, other: CombatWorld) -> bool {
        &&& other.stats@ == self.stats@
        &&& other.names@ == self.names@
        &&& other.hunger@ == self.hunger@
        &&& other.positions@ == self.positions@
        &&& other.equipped_items@ == self.equipped_items@
    }
}

/// Sum of the power bonuses of the items equipped by `owner`, by scanning all
/// equipped items.
pub fn offensive_item_bonus(items: &Vec<EquippedItem>, owner: usize) -> (r: i64)
    requires
        items@.len() <= 1_000_000_000,
    ensures
        r == sum_power_bonus(items@, owner),
{
    let mut acc: i64 = 0;
    let mut k: usize = 0;
    while k < items.len()
        invariant
            k <= items@.len(),
            items@.len() <= 1_000_000_000,
            acc == sum_power_bonus(items@.take(k as int), owner),
            -0x8000_0000 * (k as int) <= acc <= 0x7fff_ffff * (k as int),
        decreases items@.len() - k,
    {
        proof {
            assert(items@.take(k as int + 1).drop_last() =~= items@.take(k as int));
        }
        let it = items[k];
        if it.owner == owner {
            acc = acc + it.power_bonus as i64;
        }
        k += 1;
    }
    proof {
        assert(items@.take(items@.len() as int) =~= items@);
    }
    acc
}

/// Sum of the defense bonuses of the items equipped by `owner`.
pub fn defensive_item_bonus(items: &Vec<EquippedItem>, owner: usize) -> (r: i64)
    requires
        items@.len() <= 1_000_000_000,
    ensures
        r == sum_defense_bonus(items@, owner),
{
    let mut acc: i64 = 0;
    let mut k: usize = 0;
    while k < items.len()
        invariant
            k <= items@.len(),
            items@.len() <= 1_000_000_000,
            acc == sum_defense_bonus(items@.take(k as int), owner),
            -0x8000_0000 * (k as int) <= acc <= 0x7fff_ffff * (k as int),
        decreases items@.len() - k,
    {
        proof {
            assert(items@.take(k as int + 1).drop_last() =~= items@.take(k as int));
        }
        let it = items[k];
        if it.owner == owner {
            acc = acc + it.defense_bonus as i64;
        }
        k += 1;
    }
    proof {
        assert(items@.take(items@.len() as int) =~= items@);
    }
    acc
}

/// Whether the entity's hunger clock reads well fed.
pub fn is_well_fed(hunger: &Vec<Option<HungerClock>>, e: usize) -> (r: bool)
    ensures
        r == (e < hunger@.len() && (hunger@[e as int] matches Some(hc) && hc.state
            == HungerState::WellFed)),
{
    if e < hunger.len() {
        match &hunger[e] {
            Some(hc) => hc.state == HungerState::WellFed,
            None => false,
        }
    } else {
        false
    }
}

/// Computes the melee damage the attacker deals the target: power plus
/// offensive bonus (equipment, and one more when well fed), less defense plus
/// defensive equipment bonus, never below zero.
pub fn compute_damage(world: &CombatWorld, attacker: usize, target: usize) -> (r: i64)
    requires
        world.wf(),
        world.has_stats(attacker),
        world.has_stats(target),
    ensures
        r == world.damage_of(attacker, target),
{
    proof {
        lemma_sum_bonus_bounds(world.equipped_items@, attacker);
        lemma_sum_bonus_bounds(world.equipped_items@, target);
    }
    let astats = match &world.stats[attacker] {
        Some(s) => *s,
        None => vstd::pervasive::unreached(),
    };
    let tstats = match &world.stats[target] {
        Some(s) => *s,
        None => vstd::pervasive::unreached(),
    };
    let off_items = offensive_item_bonus(&world.equipped_items, attacker);
    let fed = is_well_fed(&world.hunger, attacker);
    let def_items = defensive_item_bonus(&world.equipped_items, target);
    let off: i64 = astats.power as i64 + off_items + if fed {
        1
    } else {
        0
    };
    let def: i64 = tstats.defense as i64 + def_items;
    let diff = off - def;
    if diff < 0 {
        0
    } else {
        diff
    }
}

/// Growing a log twice grows it by the concatenation of the two line lists.
proof fn lemma_log_extended_trans(
    l0: Seq<String>,
    l1: Seq<String>,
    l2: Seq<String>,
    a: Seq<Seq<char>>,
    b: Seq<Seq<char>>,
)
    requires
        log_extended(l0, l1, a),
        log_extended(l1, l2, b),
    ensures
        log_extended(l0, l2, a + b),
{
    assert forall|i: int| 0 <= i < (a + b).len() implies (#[trigger] l2[l0.len() + i])@ == (a
        + b)[i] by {
        if i < a.len() {
            assert(l2[l0.len() + i] == l1[l0.len() + i]);
            assert(l1[l0.len() + i]@ == a[i]);
        } else {
            assert(l2[l1.len() + (i - a.len())]@ == b[i - a.len()]);
        }
    }
}

/// One more intent either repeats an already seen missing component or brings
/// its own.
proof fn lemma_any_missing_step(w: CombatWorld, intents: Seq<MeleeIntent>, k: int)
    requires
        0 <= k < intents.len(),
    ensures
        w.any_missing_in(intents.take(k + 1)) == (w.any_missing_in(intents.take(k))
            || w.missing_target_component(intents[k])),
{
    if w.any_missing_in(intents.take(k)) {
        let j = choose|j: int|
            0 <= j < intents.take(k).len() && w.missing_target_component(
                #[trigger] intents.take(k)[j],
            );
        assert(intents.take(k + 1)[j] == intents.take(k)[j]);
        assert(w.any_missing_in(intents.take(k + 1)));
    }
    if w.missing_target_component(intents[k]) {
        assert(intents.take(k + 1)[k] == intents[k]);
        assert(w.any_missing_in(intents.take(k + 1)));
    }
    if w.any_missing_in(intents.take(k + 1)) {
        let j = choose|j: int|
            0 <= j < intents.take(k + 1).len() && w.missing_target_component(
                #[trigger] intents.take(k + 1)[j],
            );
        if j < k {
            assert(intents.take(k)[j] == intents.take(k + 1)[j]);
            assert(w.any_missing_in(intents.take(k)));
        } else {
            assert(intents.take(k + 1)[j] == intents[k]);
        }
    }
}

/// Resolves one melee intent: a no-op unless attacker and target both carry
/// stats and a name and are alive; otherwise emits the cosmetic particle at
/// the target, appends the hit or unable log line, and queues positive damage
/// onto the target's pending-damage accumulator. Returns whether the target
/// lacked a required component (the intent is then skipped safely).
fn resolve_one(world: &mut CombatWorld, it: MeleeIntent) -> (missing: bool)
    requires
        old(world).wf(),
    ensures
        final(world).wf(),
        old(world).same_read_tables(*final(world)),
        final(world).melee_intents@ == old(world).melee_intents@,
        final(world).pending_damage@.len() == old(world).pending_damage@.len(),
        log_extended(old(world).log@, final(world).log@, old(world).intent_log_lines(it)),
        forall|e: int|
            0 <= e < old(world).pending_damage@.len() ==> final(world).pending_damage@[e]@ == old(
                world,
            ).pending_damage@[e]@ + old(world).intent_damage_to(it, e),
        final(world).particles@ == old(world).particles@ + old(world).intent_particles(it),
        missing == old(world).missing_target_component(it),
{
    let n = world.stats.len();
    let attacker_joined: bool = it.attacker < n && world.stats[it.attacker].is_some() && {
        let named = match &world.names[it.attacker] {
            Some(_) => true,
            None => false,
        };
        named
    };
    if !attacker_joined {
        proof {
            lemma_no_intent_effects(*world, it);
        }
        return false;
    }
    let astats = match &world.stats[it.attacker] {
        Some(s) => *s,
        None => vstd::pervasive::unreached(),
    };
    if astats.hp <= 0 {
        proof {
            lemma_no_intent_effects(*world, it);
        }
        return false;
    }
    if it.target >= n || world.stats[it.target].is_none() {
        proof {
            lemma_no_intent_effects(*world, it);
        }
        return true;
    }
    let tstats = match &world.stats[it.target] {
        Some(s) => *s,
        None => vstd::pervasive::unreached(),
    };
    if tstats.hp <= 0 {
        proof {
            lemma_no_intent_effects(*world, it);
        }
        return false;
    }
    let target_named = match &world.names[it.target] {
        Some(_) => true,
        None => false,
    };
    if !target_named {
        proof {
            lemma_no_intent_effects(*world, it);
        }
        return true;
    }

    let ghost w0 = *world;
    match &world.positions[it.target] {
        Some(p) => {
            let particle = ParticleRequest { x: p.x, y: p.y, lifetime_ms: 200 };
            world.particles.push(particle);
        },
        None => {},
    }
    proof {
        assert(world.particles@ == w0.particles@ + w0.intent_particles(it)) by {
            if w0.has_position(it.target) {
                assert(w0.particles@.push(w0.intent_particles(it)[0]) =~= w0.particles@
                    + w0.intent_particles(it));
            } else {
                assert(w0.particles@ + w0.intent_particles(it) =~= w0.particles@);
            }
        }
    }

    let damage = compute_damage(world, it.attacker, it.target);

    let line = match (&world.names[it.attacker], &world.names[it.target]) {
        (Some(a), Some(t)) => {
            if damage == 0 {
                format_unable_line(a, t)
            } else {
                format_hit_line(a, t, damage)
            }
        },
        _ => vstd::pervasive::unreached(),
    };
    world.log.push(line);

    if damage > 0 {
        world.pending_damage[it.target].push(damage);
    }
    proof {
        assert forall|e: int| 0 <= e < w0.pending_damage@.len() implies world.pending_damage@[e]@
            == w0.pending_damage@[e]@ + w0.intent_damage_to(it, e) by {
            if e == it.target && damage > 0 {
                assert(world.pending_damage@[e]@ =~= w0.pending_damage@[e]@ + w0.intent_damage_to(
                    it,
                    e,
                ));
            } else {
                assert(w0.pending_damage@[e]@ + w0.intent_damage_to(it, e)
                    =~= w0.pending_damage@[e]@);
            }
        }
    }
    false
}

/// A skipped intent touches nothing: its line list, particle list and damage
/// appends are all empty, and appending nothing changes nothing.
proof fn lemma_no_intent_effects(w: CombatWorld, it: MeleeIntent)
    requires
        !w.strikes(it),
    ensures
        log_extended(w.log@, w.log@, w.intent_log_lines(it)),
        forall|e: int|
            0 <= e < w.pending_damage@.len() ==> w.pending_damage@[e]@ == w.pending_damage@[e]@
                + w.intent_damage_to(it, e),
        w.particles@ == w.particles@ + w.intent_particles(it),
{
    assert(w.particles@ + w.intent_particles(it) =~= w.particles@);
    assert forall|e: int| 0 <= e < w.pending_damage@.len() implies w.pending_damage@[e]@
        == w.pending_damage@[e]@ + w.intent_damage_to(it, e) by {
        assert(w.pending_damage@[e]@ + w.intent_damage_to(it, e) =~= w.pending_damage@[e]@);
    }
}

/// The melee resolver. Processes the queued intents in arrival order and then
/// unconditionally empties the queue: no intent is processed twice and none is
/// retried.
pub struct MeleeCombatSystem {}

impl MeleeCombatSystem {
    /// Resolves every queued melee intent against the world, in arrival order,
    /// then clears the queue. The read tables are untouched; the log, the
    /// particle list and the pending-damage accumulators grow by exactly what
    /// the intents call for. Returns the missing-component error if any intent
    /// named a target without its required components (each such intent is a
    /// safe no-op).
    pub fn run(&mut self, world: &mut CombatWorld) -> (r: Result<(), CombatError>)
        requires
            old(world).wf(),
        ensures
            final(world).wf(),
            old(world).same_read_tables(*final(world)),
            final(world).melee_intents@.len() == 0,
            log_extended(
                old(world).log@,
                final(world).log@,
                old(world).log_lines_for(old(world).melee_intents@),
            ),
            final(world).pending_damage@.len() == old(world).pending_damage@.len(),
            forall|e: int|
                0 <= e < old(world).pending_damage@.len() ==> final(world).pending_damage@[e]@
                    == old(world).pending_damage@[e]@ + old(world).damage_appends_for(
                    old(world).melee_intents@,
                    e,
                ),
            final(world).particles@ == old(world).particles@ + old(world).particles_for(
                old(world).melee_intents@,
            ),
            r is Ok <==> !old(world).any_missing_in(old(world).melee_intents@),
            r is Err ==> r->Err_0 == CombatError::MissingRequiredComponent,
    {
        let ghost intents = world.melee_intents@;
        let mut any_missing: bool = false;
        let mut k: usize = 0;
        let n = world.melee_intents.len();
        proof {
            assert(intents.take(0) =~= Seq::<MeleeIntent>::empty());
            assert(world.particles@ + Seq::<ParticleRequest>::empty() =~= world.particles@);
        }
        while k < n
            invariant
                world.wf(),
                old(world).wf(),
                old(world).same_read_tables(*world),
                world.melee_intents@ == intents,
                intents == old(world).melee_intents@,
                n == intents.len(),
                k <= n,
                world.pending_damage@.len() == old(world).pending_damage@.len(),
                log_extended(
                    old(world).log@,
                    world.log@,
                    old(world).log_lines_for(intents.take(k as int)),
                ),
                forall|e: int|
                    0 <= e < old(world).pending_damage@.len() ==> world.pending_damage@[e]@ == old(
                        world,
                    ).pending_damage@[e]@ + old(world).damage_appends_for(
                        intents.take(k as int),
                        e,
                    ),
                world.particles@ == old(world).particles@ + old(world).particles_for(
                    intents.take(k as int),
                ),
                any_missing == old(world).any_missing_in(intents.take(k as int)),
            decreases n - k,
        {
            let it = world.melee_intents[k];
            let ghost pre = *world;
            let m = resolve_one(world, it);
            if m {
                any_missing = true;
            }
            proof {
                let ow = *old(world);
                assert(intents.take(k as int + 1).drop_last() =~= intents.take(k as int));
                assert(intents.take(k as int + 1).last() == intents[k as int]);
                lemma_any_missing_step(ow, intents, k as int);
                lemma_log_extended_trans(
                    ow.log@,
                    pre.log@,
                    world.log@,
                    ow.log_lines_for(intents.take(k as int)),
                    pre.intent_log_lines(it),
                );
                assert(pre.intent_log_lines(it) == ow.intent_log_lines(it));
                assert(ow.log_lines_for(intents.take(k as int + 1)) == ow.log_lines_for(
                    intents.take(k as int),
                ) + ow.intent_log_lines(it));
                assert(world.particles@ == ow.particles@ + ow.particles_for(
                    intents.take(k as int + 1),
                )) by {
                    assert(pre.intent_particles(it) == ow.intent_particles(it));
                    assert((ow.particles@ + ow.particles_for(intents.take(k as int)))
                        + ow.intent_particles(it) =~= ow.particles@ + (ow.particles_for(
                        intents.take(k as int),
                    ) + ow.intent_particles(it)));
                }
                assert forall|e: int| 0 <= e < ow.pending_damage@.len() implies
                    world.pending_damage@[e]@ == ow.pending_damage@[e]@ + ow.damage_appends_for(
                    intents.take(k as int + 1),
                    e,
                ) by {
                    assert(pre.intent_damage_to(it, e) == ow.intent_damage_to(it, e));
                    assert(world.pending_damage@[e]@ == pre.pending_damage@[e]@
                        + pre.intent_damage_to(it, e));
                    assert((ow.pending_damage@[e]@ + ow.damage_appends_for(
                        intents.take(k as int),
                        e,
                    )) + ow.intent_damage_to(it, e) =~= ow.pending_damage@[e]@ + (
                    ow.damage_appends_for(intents.take(k as int), e) + ow.intent_damage_to(
                        it,
                        e,
                    )));
                }
            }
            k += 1;
        }
        proof {
            assert(intents.take(n as int) =~= intents);
        }
        world.melee_intents.clear();
        if any_missing {
            Err(CombatError::MissingRequiredComponent)
        } else {
            Ok(())
        }
    }
}

} // verus!
