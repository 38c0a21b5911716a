use vstd::prelude::*;
use crate::catalog::Catalog;
use crate::errors::{InvalidReportError, ReportResult};
use crate::item::{clone_opt_item, opt_item_eq, eq_opt_item, string_eq, Item};
use crate::order::{seq_sorted, sort_total, TotalOrdered};
use crate::player::SimplePlayer;
use crate::raw;
use crate::report::{since, spec_since};
use crate::text::str_eq;

verus! {

/// Some damage made to a player, shown as a single line of the report.
#[derive(Debug, Clone)]
pub struct Damage {
    /// Absolute timestamp of the hit, in milliseconds.
    pub date: i64,
    /// Elapsed milliseconds between the match start and the hit.
    pub since_beginning: u64,
    pub cause: DamageCause,
    pub damagee: SimplePlayer,
    pub damage: u16,
    pub lethal: bool,
}

/// What caused a damage: another player, a named entity, or one of a
/// closed set of environmental causes.
#[derive(Debug, Clone)]
pub enum DamageCause {
    Player(PlayerDamageCause),
    Entity(EntityDamageCause),
    BlockExplosion,
    Contact,
    Cramming,
    DragonBreath,
    Drowning,
    Dryout,
    Fall,
    FallingBlock,
    Fire,
    FireTick,
    FlyIntoWall,
    HotFloor,
    Lava,
    Lightning,
    Magic,
    Melting,
    Poison,
    Projectile,
    Starvation,
    Suffocation,
    Suicide,
    Thorns,
    Void,
    Wither,
    Command,
    Unknown,
}

#[derive(Debug, Clone)]
pub struct EntityDamageCause {
    pub entity: String,
    pub weapon: Option<Item>,
}

#[derive(Debug, Clone)]
pub struct PlayerDamageCause {
    pub player: SimplePlayer,
    pub weapon: Option<Item>,
}

/// Content equality of player projections: same identifier, name, color
/// and team name.
pub open spec fn simple_player_eq(a: SimplePlayer, b: SimplePlayer) -> bool {
    &&& a.uuid == b.uuid
    &&& string_eq(a.name, b.name)
    &&& a.color == b.color
    &&& crate::item::opt_string_eq(a.team, b.team)
}

/// Structural content equality of damage causes, the merge key of the
/// damage normalizer: same variant, and for the payload-carrying variants
/// the same player or entity and the same weapon.
pub open spec fn cause_eq(a: DamageCause, b: DamageCause) -> bool {
    match (a, b) {
        (DamageCause::Player(x), DamageCause::Player(y)) => simple_player_eq(x.player, y.player)
            && opt_item_eq(x.weapon, y.weapon),
        (DamageCause::Entity(x), DamageCause::Entity(y)) => string_eq(x.entity, y.entity)
            && opt_item_eq(x.weapon, y.weapon),
        (DamageCause::BlockExplosion, DamageCause::BlockExplosion) => true,
        (DamageCause::Contact, DamageCause::Contact) => true,
        (DamageCause::Cramming, DamageCause::Cramming) => true,
        (DamageCause::DragonBreath, DamageCause::DragonBreath) => true,
        (DamageCause::Drowning, DamageCause::Drowning) => true,
        (DamageCause::Dryout, DamageCause::Dryout) => true,
        (DamageCause::Fall, DamageCause::Fall) => true,
        (DamageCause::FallingBlock, DamageCause::FallingBlock) => true,
        (DamageCause::Fire, DamageCause::Fire) => true,
        (DamageCause::FireTick, DamageCause::FireTick) => true,
        (DamageCause::FlyIntoWall, DamageCause::FlyIntoWall) => true,
        (DamageCause::HotFloor, DamageCause::HotFloor) => true,
        (DamageCause::Lava, DamageCause::Lava) => true,
        (DamageCause::Lightning, DamageCause::Lightning) => true,
        (DamageCause::Magic, DamageCause::Magic) => true,
        (DamageCause::Melting, DamageCause::Melting) => true,
        (DamageCause::Poison, DamageCause::Poison) => true,
        (DamageCause::Projectile, DamageCause::Projectile) => true,
        (DamageCause::Starvation, DamageCause::Starvation) => true,
        (DamageCause::Suffocation, DamageCause::Suffocation) => true,
        (DamageCause::Suicide, DamageCause::Suicide) => true,
        (DamageCause::Thorns, DamageCause::Thorns) => true,
        (DamageCause::Void, DamageCause::Void) => true,
        (DamageCause::Wither, DamageCause::Wither) => true,
        (DamageCause::Command, DamageCause::Command) => true,
        (DamageCause::Unknown, DamageCause::Unknown) => true,
        _ => false,
    }
}

fn eq_simple_player(a: &SimplePlayer, b: &SimplePlayer) -> (r: bool)
    ensures
        r == simple_player_eq(*a, *b),
{
    if a.uuid != b.uuid || a.color != b.color {
        return false;
    }
    if !str_eq(a.name.as_str(), b.name.as_str()) {
        return false;
    }
    match (&a.team, &b.team) {
        (Option::None, Option::None) => true,
        (Option::Some(x), Option::Some(y)) => str_eq(x.as_str(), y.as_str()),
        _ => false,
    }
}

impl DamageCause {
    /// Whether two causes are structurally identical, the condition under
    /// which consecutive damages to the same player are merged.
    pub fn content_eq(&self, other: &DamageCause) -> (r: bool)
        ensures
            r == cause_eq(*self, *other),
    {
        match (self, other) {
            (DamageCause::Player(x), DamageCause::Player(y)) => eq_simple_player(
                &x.player,
                &y.player,
            ) && eq_opt_item(&x.weapon, &y.weapon),
            (DamageCause::Entity(x), DamageCause::Entity(y)) => str_eq(
                x.entity.as_str(),
                y.entity.as_str(),
            ) && eq_opt_item(&x.weapon, &y.weapon),
            (DamageCause::BlockExplosion, DamageCause::BlockExplosion) => true,
            (DamageCause::Contact, DamageCause::Contact) => true,
            (DamageCause::Cramming, DamageCause::Cramming) => true,
            (DamageCause::DragonBreath, DamageCause::DragonBreath) => true,
            (DamageCause::Drowning, DamageCause::Drowning) => true,
            (DamageCause::Dryout, DamageCause::Dryout) => true,
            (DamageCause::Fall, DamageCause::Fall) => true,
            (DamageCause::FallingBlock, DamageCause::FallingBlock) => true,
            (DamageCause::Fire, DamageCause::Fire) => true,
            (DamageCause::FireTick, DamageCause::FireTick) => true,
            (DamageCause::FlyIntoWall, DamageCause::FlyIntoWall) => true,
            (DamageCause::HotFloor, DamageCause::HotFloor) => true,
            (DamageCause::Lava, DamageCause::Lava) => true,
            (DamageCause::Lightning, DamageCause::Lightning) => true,
            (DamageCause::Magic, DamageCause::Magic) => true,
            (DamageCause::Melting, DamageCause::Melting) => true,
            (DamageCause::Poison, DamageCause::Poison) => true,
            (DamageCause::Projectile, DamageCause::Projectile) => true,
            (DamageCause::Starvation, DamageCause::Starvation) => true,
            (DamageCause::Suffocation, DamageCause::Suffocation) => true,
            (DamageCause::Suicide, DamageCause::Suicide) => true,
            (DamageCause::Thorns, DamageCause::Thorns) => true,
            (DamageCause::Void, DamageCause::Void) => true,
            (DamageCause::Wither, DamageCause::Wither) => true,
            (DamageCause::Command, DamageCause::Command) => true,
            (DamageCause::Unknown, DamageCause::Unknown) => true,
            _ => false,
        }
    }

    /// Whether this damage was dealt by some sort of creature, player or
    /// named entity.
    pub fn is_creature(&self) -> (r: bool)
        ensures
            r == (self is Player || self is Entity),
    {
        match self {
            DamageCause::Player(_) => true,
            DamageCause::Entity(_) => true,
            _ => false,
        }
    }
}

impl SimplePlayer {
    /// A fresh copy of this projection.
    pub fn deep_clone(&self) -> (r: SimplePlayer)
        ensures
            r == *self,
    {
        let team = match &self.team {
            Option::Some(t) => Option::Some(t.clone()),
            Option::None => Option::None,
        };
        SimplePlayer { uuid: self.uuid, name: self.name.clone(), color: self.color, team }
    }
}

impl DamageCause {
    /// A fresh cause with the same content.
    pub fn deep_clone(&self) -> (r: DamageCause)
        ensures
            cause_eq(r, *self),
    {
        match self {
            DamageCause::Player(x) => DamageCause::Player(
                PlayerDamageCause {
                    player: x.player.deep_clone(),
                    weapon: clone_opt_item(&x.weapon),
                },
            ),
            DamageCause::Entity(x) => DamageCause::Entity(
                EntityDamageCause { entity: x.entity.clone(), weapon: clone_opt_item(&x.weapon) },
            ),
            DamageCause::BlockExplosion => DamageCause::BlockExplosion,
            DamageCause::Contact => DamageCause::Contact,
            DamageCause::Cramming => DamageCause::Cramming,
            DamageCause::DragonBreath => DamageCause::DragonBreath,
            DamageCause::Drowning => DamageCause::Drowning,
            DamageCause::Dryout => DamageCause::Dryout,
            DamageCause::Fall => DamageCause::Fall,
            DamageCause::FallingBlock => DamageCause::FallingBlock,
            DamageCause::Fire => DamageCause::Fire,
            DamageCause::FireTick => DamageCause::FireTick,
            DamageCause::FlyIntoWall => DamageCause::FlyIntoWall,
            DamageCause::HotFloor => DamageCause::HotFloor,
            DamageCause::Lava => DamageCause::Lava,
            DamageCause::Lightning => DamageCause::Lightning,
            DamageCause::Magic => DamageCause::Magic,
            DamageCause::Melting => DamageCause::Melting,
            DamageCause::Poison => DamageCause::Poison,
            DamageCause::Projectile => DamageCause::Projectile,
            DamageCause::Starvation => DamageCause::Starvation,
            DamageCause::Suffocation => DamageCause::Suffocation,
            DamageCause::Suicide => DamageCause::Suicide,
            DamageCause::Thorns => DamageCause::Thorns,
            DamageCause::Void => DamageCause::Void,
            DamageCause::Wither => DamageCause::Wither,
            DamageCause::Command => DamageCause::Command,
            DamageCause::Unknown => DamageCause::Unknown,
        }
    }
}

/// The fixed tag an environmental cause is bucketed under; meaningless for
/// the player and entity variants, which are bucketed otherwise.
pub open spec fn cause_tag(c: DamageCause) -> Seq<char> {
    match c {
        DamageCause::Player(_) => arbitrary(),
        DamageCause::Entity(_) => arbitrary(),
        DamageCause::BlockExplosion => "block_explosion"@,
        DamageCause::Contact => "contact"@,
        DamageCause::Cramming => "cramming"@,
        DamageCause::DragonBreath => "dragon_breath"@,
        DamageCause::Drowning => "drowning"@,
        DamageCause::Dryout => "dryout"@,
        DamageCause::Fall => "fall"@,
        DamageCause::FallingBlock => "falling_block"@,
        DamageCause::Fire => "fire"@,
        DamageCause::FireTick => "fire_tick"@,
        DamageCause::FlyIntoWall => "fly_into_wall"@,
        DamageCause::HotFloor => "hot_floor"@,
        DamageCause::Lava => "lava"@,
        DamageCause::Lightning => "lightning"@,
        DamageCause::Magic => "magic"@,
        DamageCause::Melting => "melting"@,
        DamageCause::Poison => "poison"@,
        DamageCause::Projectile => "projectile"@,
        DamageCause::Starvation => "starvation"@,
        DamageCause::Suffocation => "suffocation"@,
        DamageCause::Suicide => "suicide"@,
        DamageCause::Thorns => "thorns"@,
        DamageCause::Void => "void"@,
        DamageCause::Wither => "wither"@,
        DamageCause::Command => "command"@,
        DamageCause::Unknown => "unknown"@,
    }
}

impl DamageCause {
    /// The tag an environmental cause is bucketed under, in lower snake
    /// case.
    pub fn tag_name(&self) -> (r: String)
        ensures
            !(self is Player) && !(self is Entity) ==> r@ == cause_tag(*self),
    {
        match self {
            DamageCause::Player(_) => String::new(),
            DamageCause::Entity(_) => String::new(),
            DamageCause::BlockExplosion => String::from_str("block_explosion"),
            DamageCause::Contact => String::from_str("contact"),
            DamageCause::Cramming => String::from_str("cramming"),
            DamageCause::DragonBreath => String::from_str("dragon_breath"),
            DamageCause::Drowning => String::from_str("drowning"),
            DamageCause::Dryout => String::from_str("dryout"),
            DamageCause::Fall => String::from_str("fall"),
            DamageCause::FallingBlock => String::from_str("falling_block"),
            DamageCause::Fire => String::from_str("fire"),
            DamageCause::FireTick => String::from_str("fire_tick"),
            DamageCause::FlyIntoWall => String::from_str("fly_into_wall"),
            DamageCause::HotFloor => String::from_str("hot_floor"),
            DamageCause::Lava => String::from_str("lava"),
            DamageCause::Lightning => String::from_str("lightning"),
            DamageCause::Magic => String::from_str("magic"),
            DamageCause::Melting => String::from_str("melting"),
            DamageCause::Poison => String::from_str("poison"),
            DamageCause::Projectile => String::from_str("projectile"),
            DamageCause::Starvation => String::from_str("starvation"),
            DamageCause::Suffocation => String::from_str("suffocation"),
            DamageCause::Suicide => String::from_str("suicide"),
            DamageCause::Thorns => String::from_str("thorns"),
            DamageCause::Void => String::from_str("void"),
            DamageCause::Wither => String::from_str("wither"),
            DamageCause::Command => String::from_str("command"),
            DamageCause::Unknown => String::from_str("unknown"),
        }
    }
}

/// Two damages with the same content: equal in every field, with causes
/// structurally identical.
pub open spec fn damage_like(a: Damage, b: Damage) -> bool {
    &&& a.date == b.date
    &&& a.since_beginning == b.since_beginning
    &&& cause_eq(a.cause, b.cause)
    &&& a.damagee == b.damagee
    &&& a.damage == b.damage
    &&& a.lethal == b.lethal
}

/// Pointwise content equality of damage sequences.
pub open spec fn damages_like(a: Seq<Damage>, b: Seq<Damage>) -> bool {
    a.len() == b.len() && forall|i: int| 0 <= i < a.len() ==> damage_like(#[trigger] a[i], b[i])
}

/// Damages are ordered by timestamp.
impl TotalOrdered for Damage {
    open spec fn le_spec(&self, other: &Self) -> bool {
        self.date <= other.date
    }

    proof fn lemma_total(a: &Self, b: &Self) {
    }

    proof fn lemma_trans(a: &Self, b: &Self, c: &Self) {
    }

    fn le(&self, other: &Self) -> (r: bool) {
        self.date <= other.date
    }
}

/// Raw damages are ordered by timestamp; the merge pass expects its input
/// in that order.
impl TotalOrdered for raw::Damage {
    open spec fn le_spec(&self, other: &Self) -> bool {
        self.date <= other.date
    }

    proof fn lemma_total(a: &Self, b: &Self) {
    }

    proof fn lemma_trans(a: &Self, b: &Self, c: &Self) {
    }

    fn le(&self, other: &Self) -> (r: bool) {
        self.date <= other.date
    }
}

/// Damage points add with saturation: two merged hits never overflow the
/// damage counter.
pub open spec fn sat_add_u16(a: u16, b: u16) -> u16 {
    if a + b > u16::MAX {
        u16::MAX
    } else {
        (a + b) as u16
    }
}

fn add_damage_amounts(a: u16, b: u16) -> (r: u16)
    ensures
        r == sat_add_u16(a, b),
{
    if a > u16::MAX - b {
        u16::MAX
    } else {
        a + b
    }
}

/// Whether a raw cause resolves: a player cause must name a catalog
/// player, every other cause always resolves.
pub open spec fn cause_resolves(rc: raw::DamageCause, players: Catalog) -> bool {
    match rc {
        raw::DamageCause::Player(pdc) => players.spec_has(pdc.player),
        _ => true,
    }
}

/// The processed cause a raw cause maps to: the player of a player cause
/// is replaced by its catalog projection, and the fire-tick cause is
/// folded into fire.
pub open spec fn cause_from_raw_spec(rc: raw::DamageCause, players: Catalog) -> DamageCause {
    match rc {
        raw::DamageCause::Player(pdc) => DamageCause::Player(
            PlayerDamageCause {
                player: players.spec_resolve(pdc.player).simple_spec(),
                weapon: pdc.weapon,
            },
        ),
        raw::DamageCause::Entity(e) => DamageCause::Entity(e),
        raw::DamageCause::BlockExplosion => DamageCause::BlockExplosion,
        raw::DamageCause::Contact => DamageCause::Contact,
        raw::DamageCause::Cramming => DamageCause::Cramming,
        raw::DamageCause::DragonBreath => DamageCause::DragonBreath,
        raw::DamageCause::Drowning => DamageCause::Drowning,
        raw::DamageCause::Dryout => DamageCause::Dryout,
        raw::DamageCause::Fall => DamageCause::Fall,
        raw::DamageCause::FallingBlock => DamageCause::FallingBlock,
        raw::DamageCause::Fire => DamageCause::Fire,
        raw::DamageCause::FireTick => DamageCause::Fire,
        raw::DamageCause::FlyIntoWall => DamageCause::FlyIntoWall,
        raw::DamageCause::HotFloor => DamageCause::HotFloor,
        raw::DamageCause::Lava => DamageCause::Lava,
        raw::DamageCause::Lightning => DamageCause::Lightning,
        raw::DamageCause::Magic => DamageCause::Magic,
        raw::DamageCause::Melting => DamageCause::Melting,
        raw::DamageCause::Poison => DamageCause::Poison,
        raw::DamageCause::Projectile => DamageCause::Projectile,
        raw::DamageCause::Starvation => DamageCause::Starvation,
        raw::DamageCause::Suffocation => DamageCause::Suffocation,
        raw::DamageCause::Suicide => DamageCause::Suicide,
        raw::DamageCause::Thorns => DamageCause::Thorns,
        raw::DamageCause::Void => DamageCause::Void,
        raw::DamageCause::Wither => DamageCause::Wither,
        raw::DamageCause::Command => DamageCause::Command,
        raw::DamageCause::Unknown => DamageCause::Unknown,
    }
}

impl DamageCause {
    /// Resolves a raw cause against the catalog; fails with
    /// `MissingPlayerReference` exactly when a player cause names an
    /// identifier the catalog does not hold.
    pub fn from_raw(rc: raw::DamageCause, players: &Catalog) -> (r: ReportResult<DamageCause>)
        requires
            players.wf(),
        ensures
            match r {
                Result::Ok(c) => cause_resolves(rc, *players) && c == cause_from_raw_spec(
                    rc,
                    *players,
                ),
                Result::Err(e) => match rc {
                    raw::DamageCause::Player(pdc) => !players.spec_has(pdc.player) && e
                        == (InvalidReportError::MissingPlayerReference { uuid: pdc.player }),
                    _ => false,
                },
            },
    {
        match rc {
            raw::DamageCause::Player(pdc) => match players.resolve_simple(pdc.player) {
                Result::Ok(player) => Result::Ok(
                    DamageCause::Player(PlayerDamageCause { player, weapon: pdc.weapon }),
                ),
                Result::Err(e) => Result::Err(e),
            },
            raw::DamageCause::Entity(e) => Result::Ok(DamageCause::Entity(e)),
            raw::DamageCause::BlockExplosion => Result::Ok(DamageCause::BlockExplosion),
            raw::DamageCause::Contact => Result::Ok(DamageCause::Contact),
            raw::DamageCause::Cramming => Result::Ok(DamageCause::Cramming),
            raw::DamageCause::DragonBreath => Result::Ok(DamageCause::DragonBreath),
            raw::DamageCause::Drowning => Result::Ok(DamageCause::Drowning),
            raw::DamageCause::Dryout => Result::Ok(DamageCause::Dryout),
            raw::DamageCause::Fall => Result::Ok(DamageCause::Fall),
            raw::DamageCause::FallingBlock => Result::Ok(DamageCause::FallingBlock),
            raw::DamageCause::Fire => Result::Ok(DamageCause::Fire),
            raw::DamageCause::FireTick => Result::Ok(DamageCause::Fire),
            raw::DamageCause::FlyIntoWall => Result::Ok(DamageCause::FlyIntoWall),
            raw::DamageCause::HotFloor => Result::Ok(DamageCause::HotFloor),
            raw::DamageCause::Lava => Result::Ok(DamageCause::Lava),
            raw::DamageCause::Lightning => Result::Ok(DamageCause::Lightning),
            raw::DamageCause::Magic => Result::Ok(DamageCause::Magic),
            raw::DamageCause::Melting => Result::Ok(DamageCause::Melting),
            raw::DamageCause::Poison => Result::Ok(DamageCause::Poison),
            raw::DamageCause::Projectile => Result::Ok(DamageCause::Projectile),
            raw::DamageCause::Starvation => Result::Ok(DamageCause::Starvation),
            raw::DamageCause::Suffocation => Result::Ok(DamageCause::Suffocation),
            raw::DamageCause::Suicide => Result::Ok(DamageCause::Suicide),
            raw::DamageCause::Thorns => Result::Ok(DamageCause::Thorns),
            raw::DamageCause::Void => Result::Ok(DamageCause::Void),
            raw::DamageCause::Wither => Result::Ok(DamageCause::Wither),
            raw::DamageCause::Command => Result::Ok(DamageCause::Command),
            raw::DamageCause::Unknown => Result::Ok(DamageCause::Unknown),
        }
    }
}

/// Whether a raw damage resolves: its damagee, and the player of a player
/// cause, must name catalog players.
pub open spec fn damage_resolves(rd: raw::Damage, players: Catalog) -> bool {
    players.spec_has(rd.damagee) && cause_resolves(rd.cause, players)
}

/// The processed damage a raw damage maps to once it resolves.
pub open spec fn damage_from_raw_spec(rd: raw::Damage, players: Catalog, begin: i64) -> Damage {
    Damage {
        date: rd.date,
        since_beginning: spec_since(rd.date, begin),
        cause: cause_from_raw_spec(rd.cause, players),
        damagee: players.spec_resolve(rd.damagee).simple_spec(),
        damage: rd.damage,
        lethal: rd.lethal,
    }
}

/// The error a raw damage that does not resolve fails with: the dangling
/// damagee is reported first, a dangling player cause after it.
pub open spec fn damage_error(rd: raw::Damage, players: Catalog) -> InvalidReportError {
    if !players.spec_has(rd.damagee) {
        InvalidReportError::MissingPlayerReference { uuid: rd.damagee }
    } else {
        match rd.cause {
            raw::DamageCause::Player(pdc) => InvalidReportError::MissingPlayerReference {
                uuid: pdc.player,
            },
            _ => arbitrary(),
        }
    }
}

/// Whether an earlier pending damage absorbs a new one to the same
/// damagee: the causes are structurally identical and the earlier damage
/// was not lethal.
pub open spec fn should_merge(prev: Damage, new: Damage) -> bool {
    cause_eq(prev.cause, new.cause) && !prev.lethal
}

/// The single damage two merged damages collapse into: the points add
/// (saturating), the lethality is the newer event's, everything else is
/// kept from the earlier event.
pub open spec fn merged(prev: Damage, new: Damage) -> Damage {
    Damage {
        date: prev.date,
        since_beginning: prev.since_beginning,
        cause: prev.cause,
        damagee: prev.damagee,
        damage: sat_add_u16(prev.damage, new.damage),
        lethal: new.lethal,
    }
}

impl Damage {
    /// Resolves one raw damage against the catalog and stamps it with the
    /// elapsed time since the match start; fails with
    /// `MissingPlayerReference` exactly when a reference dangles.
    pub fn from_raw(rd: raw::Damage, players: &Catalog, begin: i64) -> (r: ReportResult<Damage>)
        requires
            players.wf(),
        ensures
            match r {
                Result::Ok(d) => damage_resolves(rd, *players) && d == damage_from_raw_spec(
                    rd,
                    *players,
                    begin,
                ),
                Result::Err(e) => !damage_resolves(rd, *players) && e == damage_error(
                    rd,
                    *players,
                ),
            },
    {
        let damagee = match players.resolve_simple(rd.damagee) {
            Result::Ok(sp) => sp,
            Result::Err(e) => {
                return Result::Err(e);
            },
        };
        let cause = match DamageCause::from_raw(rd.cause, players) {
            Result::Ok(c) => c,
            Result::Err(e) => {
                return Result::Err(e);
            },
        };
        Result::Ok(
            Damage {
                date: rd.date,
                since_beginning: since(rd.date, begin),
                cause,
                damagee,
                damage: rd.damage,
                lethal: rd.lethal,
            },
        )
    }

    /// A fresh damage with the same content.
    pub fn deep_clone(&self) -> (r: Damage)
        ensures
            damage_like(r, *self),
    {
        Damage {
            date: self.date,
            since_beginning: self.since_beginning,
            cause: self.cause.deep_clone(),
            damagee: self.damagee.deep_clone(),
            damage: self.damage,
            lethal: self.lethal,
        }
    }

    /// Whether this pending damage absorbs the next damage to the same
    /// damagee.
    pub fn should_merge_with(&self, other: &Damage) -> (r: bool)
        ensures
            r == should_merge(*self, *other),
    {
        self.cause.content_eq(&other.cause) && !self.lethal
    }

    /// Merges the next damage into this one: the points add (saturating)
    /// and the lethality flag is overwritten; the date is kept, so the
    /// other damage should be the later one.
    pub fn merge_with(&mut self, other: &Damage)
        ensures
            *final(self) == merged(*old(self), *other),
    {
        self.damage = add_damage_amounts(self.damage, other.damage);
        self.lethal = other.lethal;
    }
}

/// The position of the pending damage for this damagee, `-1` when none is
/// pending.
pub open spec fn pending_index(pend: Seq<Damage>, uuid: u128) -> int
    decreases pend.len(),
{
    if pend.len() == 0 {
        -1
    } else if pend.first().damagee.uuid == uuid {
        0
    } else {
        let r = pending_index(pend.drop_first(), uuid);
        if r < 0 {
            -1
        } else {
            r + 1
        }
    }
}

proof fn lemma_pending_index_found(pend: Seq<Damage>, uuid: u128, k: int)
    requires
        0 <= k < pend.len(),
        pend[k].damagee.uuid == uuid,
        forall|j: int| 0 <= j < k ==> (#[trigger] pend[j]).damagee.uuid != uuid,
    ensures
        pending_index(pend, uuid) == k,
    decreases k,
{
    if k == 0 {
    } else {
        assert(pend.first().damagee.uuid != uuid);
        assert(pend.drop_first()[k - 1] == pend[k]);
        assert forall|j: int| 0 <= j < k - 1 implies (#[trigger] pend.drop_first()[j]).damagee.uuid
            != uuid by {
            assert(pend.drop_first()[j] == pend[j + 1]);
        }
        lemma_pending_index_found(pend.drop_first(), uuid, k - 1);
    }
}

proof fn lemma_pending_index_none(pend: Seq<Damage>, uuid: u128)
    requires
        forall|j: int| 0 <= j < pend.len() ==> (#[trigger] pend[j]).damagee.uuid != uuid,
    ensures
        pending_index(pend, uuid) == -1,
    decreases pend.len(),
{
    if pend.len() > 0 {
        assert forall|j: int|
            0 <= j < pend.drop_first().len() implies (#[trigger] pend.drop_first()[j]).damagee.uuid
            != uuid by {
            assert(pend.drop_first()[j] == pend[j + 1]);
        }
        lemma_pending_index_none(pend.drop_first(), uuid);
    }
}

fn find_pending(pend: &Vec<Damage>, uuid: u128) -> (r: Option<usize>)
    ensures
        match r {
            Option::Some(k) => k < pend@.len() && pend@[k as int].damagee.uuid == uuid
                && pending_index(pend@, uuid) == k as int,
            Option::None => pending_index(pend@, uuid) == -1,
        },
{
    let mut i: usize = 0;
    while i < pend.len()
        invariant
            i <= pend@.len(),
            forall|j: int| 0 <= j < i ==> (#[trigger] pend@[j]).damagee.uuid != uuid,
        decreases pend@.len() - i,
    {
        if pend[i].damagee.uuid == uuid {
            proof {
                lemma_pending_index_found(pend@, uuid, i as int);
            }
            return Option::Some(i);
        }
        i = i + 1;
    }
    proof {
        lemma_pending_index_none(pend@, uuid);
    }
    Option::None
}

/// The state of the merge pass after a sequence of damages, processed in
/// order: the damages already flushed, and the pending damage per damagee
/// (in first-pending order). A new damage merges into its damagee's
/// pending damage when the causes are identical and the pending damage is
/// not lethal; otherwise the pending damage is flushed and the new damage
/// becomes pending. Merging is keyed by damagee alone, so interleaved
/// damages to different damagees merge independently.
pub open spec fn merge_pending(input: Seq<Damage>) -> (Seq<Damage>, Seq<Damage>)
    decreases input.len(),
{
    if input.len() == 0 {
        (Seq::<Damage>::empty(), Seq::<Damage>::empty())
    } else {
        let (out, pend) = merge_pending(input.drop_last());
        let d = input.last();
        let k = pending_index(pend, d.damagee.uuid);
        if k >= 0 {
            if should_merge(pend[k], d) {
                (out, pend.update(k, merged(pend[k], d)))
            } else {
                (out.push(pend[k]), pend.remove(k).push(d))
            }
        } else {
            (out, pend.push(d))
        }
    }
}

/// Every damage the merge pass leaves: the flushed damages, then the
/// damages still pending at the end.
pub open spec fn merge_result(input: Seq<Damage>) -> Seq<Damage> {
    merge_pending(input).0 + merge_pending(input).1
}

impl Damage {
    /// Resolves every raw damage, coalesces consecutive same-cause
    /// non-lethal hits per damagee, and sorts the result by timestamp;
    /// fails with `MissingPlayerReference` on the first damage with a
    /// dangling reference. The raw damages are expected in chronological
    /// order; the merge pass processes them in the order given.
    #[verifier::loop_isolation(false)]
    pub fn from_raw_vec(raw_damages: Vec<raw::Damage>, players: &Catalog, begin: i64) -> (r:
        ReportResult<Vec<Damage>>)
        requires
            players.wf(),
        ensures
            match r {
                Result::Ok(ds) => {
                    &&& forall|i: int|
                        0 <= i < raw_damages@.len() ==> damage_resolves(
                            #[trigger] raw_damages@[i],
                            *players,
                        )
                    &&& ds@.to_multiset() == merge_result(
                        raw_damages@.map_values(
                            |rd: raw::Damage| damage_from_raw_spec(rd, *players, begin),
                        ),
                    ).to_multiset()
                    &&& seq_sorted(ds@)
                },
                Result::Err(e) => exists|i: int|
                    {
                        &&& 0 <= i < raw_damages@.len()
                        &&& !damage_resolves(#[trigger] raw_damages@[i], *players)
                        &&& forall|j: int|
                            0 <= j < i ==> damage_resolves(#[trigger] raw_damages@[j], *players)
                        &&& e == damage_error(raw_damages@[i], *players)
                    },
            },
    {
        let ghost orig = raw_damages@;
        let ghost f = |rd: raw::Damage| damage_from_raw_spec(rd, *players, begin);
        let mut rest = raw_damages;
        let mut converted: Vec<Damage> = Vec::new();
        let ghost mut i: int = 0;
        proof {
            assert(rest@ =~= orig.skip(0));
            assert(converted@ =~= orig.take(0).map_values(f));
        }
        while rest.len() > 0
            invariant
                0 <= i <= orig.len(),
                rest@ == orig.skip(i),
                converted@ == orig.take(i).map_values(f),
                forall|j: int| 0 <= j < i ==> damage_resolves(#[trigger] orig[j], *players),
            decreases rest@.len(),
        {
            let rd = rest.remove(0);
            proof {
                assert(rd == orig[i]);
                assert(rest@ =~= orig.skip(i + 1));
            }
            match Damage::from_raw(rd, players, begin) {
                Result::Ok(d) => {
                    converted.push(d);
                    proof {
                        assert(converted@ =~= orig.take(i + 1).map_values(f));
                    }
                },
                Result::Err(e) => {
                    return Result::Err(e);
                },
            }
            proof {
                i = i + 1;
            }
        }
        proof {
            assert(orig.take(i) =~= orig);
            assert(converted@ == orig.map_values(f));
        }
        let ghost conv = converted@;
        let mut rest = converted;
        let mut out: Vec<Damage> = Vec::new();
        let mut pending: Vec<Damage> = Vec::new();
        let ghost mut n: int = 0;
        proof {
            assert(rest@ =~= conv.skip(0));
            assert(conv.take(0) =~= Seq::<Damage>::empty());
        }
        while rest.len() > 0
            invariant
                0 <= n <= conv.len(),
                rest@ == conv.skip(n),
                out@ == merge_pending(conv.take(n)).0,
                pending@ == merge_pending(conv.take(n)).1,
            decreases rest@.len(),
        {
            let d = rest.remove(0);
            proof {
                assert(d == conv[n]);
                assert(rest@ =~= conv.skip(n + 1));
                assert(conv.take(n + 1).drop_last() =~= conv.take(n));
                assert(conv.take(n + 1).last() == conv[n]);
            }
            let ghost pend_before = pending@;
            match find_pending(&pending, d.damagee.uuid) {
                Option::Some(k) => {
                    if pending[k].should_merge_with(&d) {
                        let mut prev = pending.remove(k);
                        prev.merge_with(&d);
                        pending.insert(k, prev);
                        proof {
                            assert(pending@ =~= pend_before.update(
                                k as int,
                                merged(pend_before[k as int], d),
                            ));
                        }
                    } else {
                        let prev = pending.remove(k);
                        out.push(prev);
                        pending.push(d);
                    }
                },
                Option::None => {
                    pending.push(d);
                },
            }
            proof {
                n = n + 1;
            }
        }
        proof {
            assert(conv.take(n) =~= conv);
        }
        let mut result = out;
        result.append(&mut pending);
        proof {
            assert(result@ == merge_result(conv));
        }
        Result::Ok(sort_total(result))
    }
}

/// Every damagee projection and every cause in the sequence comes from a
/// single input damage, kept exactly as it was.
pub open spec fn damagees_from(s: Seq<Damage>, input: Seq<Damage>) -> bool {
    forall|m: int|
        0 <= m < s.len() ==> exists|i: int|
            0 <= i < input.len() && (#[trigger] s[m]).damagee == input[i].damagee && s[m].cause
                == input[i].cause
}

proof fn lemma_damagees_from_prefix(s: Seq<Damage>, pre: Seq<Damage>, post: Seq<Damage>)
    requires
        damagees_from(s, pre),
        pre == post.drop_last(),
        post.len() == pre.len() + 1,
    ensures
        damagees_from(s, post),
{
    assert forall|m: int| 0 <= m < s.len() implies exists|i: int|
        0 <= i < post.len() && (#[trigger] s[m]).damagee == post[i].damagee && s[m].cause
            == post[i].cause by {
        let i = choose|i: int|
            0 <= i < pre.len() && (#[trigger] s[m]).damagee == pre[i].damagee && s[m].cause
                == pre[i].cause;
        assert(post[i] == pre[i]);
    }
}

/// The merge pass invents no player projection: every damagee and every
/// cause embedded in its output comes from one of the input damages, kept
/// exactly as it was resolved.
pub proof fn lemma_merge_keeps_damagees(input: Seq<Damage>)
    ensures
        damagees_from(merge_pending(input).0, input),
        damagees_from(merge_pending(input).1, input),
        damagees_from(merge_result(input), input),
    decreases input.len(),
{
    if input.len() == 0 {
    } else {
        let pre = input.drop_last();
        lemma_merge_keeps_damagees(pre);
        let (out, pend) = merge_pending(pre);
        lemma_damagees_from_prefix(out, pre, input);
        lemma_damagees_from_prefix(pend, pre, input);
        let d = input.last();
        let k = pending_index(pend, d.damagee.uuid);
        let nout = merge_pending(input).0;
        let npend = merge_pending(input).1;
        assert(input[input.len() - 1] == d);
        if k >= 0 {
            assert(0 <= k < pend.len()) by {
                lemma_pending_index_bounds(pend, d.damagee.uuid);
            }
            if should_merge(pend[k], d) {
                assert(nout == out);
                assert(npend == pend.update(k, merged(pend[k], d)));
                assert forall|m: int| 0 <= m < npend.len() implies exists|i: int|
                    0 <= i < input.len() && (#[trigger] npend[m]).damagee == input[i].damagee
                        && npend[m].cause == input[i].cause by {
                    if m == k {
                        assert(npend[m].damagee == pend[k].damagee);
                        assert(npend[m].cause == pend[k].cause);
                        let i = choose|i: int|
                            0 <= i < input.len() && (#[trigger] pend[k]).damagee
                                == input[i].damagee && pend[k].cause == input[i].cause;
                        assert(npend[m].damagee == input[i].damagee);
                    } else {
                        assert(npend[m] == pend[m]);
                    }
                }
            } else {
                assert(nout == out.push(pend[k]));
                assert(npend == pend.remove(k).push(d));
                assert forall|m: int| 0 <= m < nout.len() implies exists|i: int|
                    0 <= i < input.len() && (#[trigger] nout[m]).damagee == input[i].damagee
                        && nout[m].cause == input[i].cause by {
                    if m < out.len() {
                        assert(nout[m] == out[m]);
                    } else {
                        assert(nout[m] == pend[k]);
                    }
                }
                assert forall|m: int| 0 <= m < npend.len() implies exists|i: int|
                    0 <= i < input.len() && (#[trigger] npend[m]).damagee == input[i].damagee
                        && npend[m].cause == input[i].cause by {
                    if m < pend.remove(k).len() {
                        if m < k {
                            assert(npend[m] == pend[m]);
                        } else {
                            assert(npend[m] == pend[m + 1]);
                        }
                    } else {
                        assert(npend[m] == d);
                        assert(npend[m].damagee == input[input.len() - 1].damagee);
                        assert(npend[m].cause == input[input.len() - 1].cause);
                    }
                }
            }
        } else {
            assert(nout == out);
            assert(npend == pend.push(d));
            assert forall|m: int| 0 <= m < npend.len() implies exists|i: int|
                0 <= i < input.len() && (#[trigger] npend[m]).damagee == input[i].damagee
                    && npend[m].cause == input[i].cause by {
                if m < pend.len() {
                    assert(npend[m] == pend[m]);
                } else {
                    assert(npend[m] == d);
                    assert(npend[m].damagee == input[input.len() - 1].damagee);
                    assert(npend[m].cause == input[input.len() - 1].cause);
                }
            }
        }
        assert forall|m: int| 0 <= m < merge_result(input).len() implies exists|i: int|
            0 <= i < input.len() && (#[trigger] merge_result(input)[m]).damagee
                == input[i].damagee && merge_result(input)[m].cause == input[i].cause by {
            if m < nout.len() {
                assert(merge_result(input)[m] == nout[m]);
            } else {
                assert(merge_result(input)[m] == npend[m - nout.len()]);
            }
        }
    }
}

proof fn lemma_pending_index_bounds(pend: Seq<Damage>, uuid: u128)
    ensures
        -1 <= pending_index(pend, uuid) < pend.len(),
        pending_index(pend, uuid) >= 0 ==> pend[pending_index(pend, uuid)].damagee.uuid == uuid,
    decreases pend.len(),
{
    if pend.len() > 0 && pend.first().damagee.uuid != uuid {
        lemma_pending_index_bounds(pend.drop_first(), uuid);
        let r = pending_index(pend.drop_first(), uuid);
        if r >= 0 {
            assert(pend.drop_first()[r] == pend[r + 1]);
        }
    }
}

} // verus!
