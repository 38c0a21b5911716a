use vstd::prelude::*;
use crate::catalog::Catalog;
use crate::errors::{InvalidReportError, ReportResult};
use crate::order::{seq_sorted, sort_total, TotalOrdered};
use crate::player::SimplePlayer;
use crate::raw;
use crate::report::{since, spec_since};

verus! {

/// What healed a player.
#[derive(Debug, Clone, Copy, PartialEq, Eq, Structural)]
pub enum HealCause {
    Natural,
    GoldenApple,
    NotchApple,
    HealingPotion,
    Command,
    Unknown,
}

/// Some healing received by a player, with the healed player resolved and
/// the timestamp also given relative to the match start.
#[derive(Debug, Clone)]
pub struct Heal {
    /// Absolute timestamp of the heal, in milliseconds.
    pub date: i64,
    /// Elapsed milliseconds between the match start and the heal.
    pub since_beginning: u64,
    pub cause: HealCause,
    pub healed: SimplePlayer,
    pub heal: u16,
}

impl Heal {
    /// A fresh copy of this heal.
    pub fn deep_clone(&self) -> (r: Heal)
        ensures
            r == *self,
    {
        Heal {
            date: self.date,
            since_beginning: self.since_beginning,
            cause: self.cause,
            healed: self.healed.deep_clone(),
            heal: self.heal,
        }
    }
}

/// Heals are ordered by timestamp.
impl TotalOrdered for Heal {
    open spec fn le_spec(&self, other: &Self) -> bool {
        self.date <= other.date
    }

    proof fn lemma_total(a: &Self, b: &Self) {
    }

    proof fn lemma_trans(a: &Self, b: &Self, c: &Self) {
    }

    fn le(&self, other: &Self) -> (r: bool) {
        self.date <= other.date
    }
}

/// The processed heal a raw heal maps to, once its `healed` reference
/// resolves in the catalog.
pub open spec fn heal_from_raw_spec(rh: raw::Heal, players: Catalog, begin: i64) -> Heal {
    Heal {
        date: rh.date,
        since_beginning: spec_since(rh.date, begin),
        cause: rh.cause,
        healed: players.spec_resolve(rh.healed).simple_spec(),
        heal: rh.heal,
    }
}

impl Heal {
    /// Resolves one raw heal against the catalog and stamps it with the
    /// elapsed time since the match start; fails with
    /// `MissingPlayerReference` exactly when `healed` does not resolve.
    pub fn from_raw(raw_heal: raw::Heal, players: &Catalog, begin: i64) -> (r: ReportResult<Heal>)
        requires
            players.wf(),
        ensures
            match r {
                Result::Ok(h) => players.spec_has(raw_heal.healed) && h == heal_from_raw_spec(
                    raw_heal,
                    *players,
                    begin,
                ),
                Result::Err(e) => !players.spec_has(raw_heal.healed) && e
                    == (InvalidReportError::MissingPlayerReference { uuid: raw_heal.healed }),
            },
    {
        match players.resolve_simple(raw_heal.healed) {
            Result::Ok(healed) => Result::Ok(
                Heal {
                    date: raw_heal.date,
                    since_beginning: since(raw_heal.date, begin),
                    cause: raw_heal.cause,
                    healed,
                    heal: raw_heal.heal,
                },
            ),
            Result::Err(e) => Result::Err(e),
        }
    }

    /// Resolves every raw heal and sorts the result by timestamp; fails
    /// with `MissingPlayerReference` on the first heal whose `healed` does
    /// not resolve.
    #[verifier::loop_isolation(false)]
    pub fn from_raw_vec(raw_heals: Vec<raw::Heal>, players: &Catalog, begin: i64) -> (r:
        ReportResult<Vec<Heal>>)
        requires
            players.wf(),
        ensures
            match r {
                Result::Ok(hs) => {
                    &&& forall|i: int|
                        0 <= i < raw_heals@.len() ==> players.spec_has(
                            (#[trigger] raw_heals@[i]).healed,
                        )
                    &&& hs@.to_multiset() == raw_heals@.map_values(
                        |rh: raw::Heal| heal_from_raw_spec(rh, *players, begin),
                    ).to_multiset()
                    &&& seq_sorted(hs@)
                },
                Result::Err(e) => exists|i: int|
                    {
                        &&& 0 <= i < raw_heals@.len()
                        &&& !players.spec_has((#[trigger] raw_heals@[i]).healed)
                        &&& forall|j: int|
                            0 <= j < i ==> players.spec_has((#[trigger] raw_heals@[j]).healed)
                        &&& e == (InvalidReportError::MissingPlayerReference {
                            uuid: raw_heals@[i].healed,
                        })
                    },
            },
    {
        let ghost orig = raw_heals@;
        let ghost f = |rh: raw::Heal| heal_from_raw_spec(rh, *players, begin);
        let mut rest = raw_heals;
        let mut heals: Vec<Heal> = Vec::new();
        let ghost mut i: int = 0;
        proof {
            assert(rest@ =~= orig.skip(0));
            assert(heals@ =~= orig.take(0).map_values(f));
        }
        while rest.len() > 0
            invariant
                players.wf(),
                0 <= i <= orig.len(),
                rest@ == orig.skip(i),
                heals@ == orig.take(i).map_values(f),
                f == (|rh: raw::Heal| heal_from_raw_spec(rh, *players, begin)),
                forall|j: int| 0 <= j < i ==> players.spec_has((#[trigger] orig[j]).healed),
            decreases rest@.len(),
        {
            let rh = rest.remove(0);
            proof {
                assert(rh == orig[i]);
                assert(rest@ =~= orig.skip(i + 1));
            }
            match Heal::from_raw(rh, players, begin) {
                Result::Ok(h) => {
                    heals.push(h);
                    proof {
                        assert(heals@ =~= orig.take(i + 1).map_values(f));
                    }
                },
                Result::Err(e) => {
                    return Result::Err(e);
                },
            }
            proof {
                i = i + 1;
            }
        }
        proof {
            assert(orig.take(i) =~= orig);
        }
        Result::Ok(sort_total(heals))
    }
}

} // verus!
