//! The registry of one instance of the manager: empty until the units were
//! listed for the first time, and from then on the units of the last listing
//! that went well.

use crate::control::DbusError;
use crate::unit::{toggled_activeness, toggled_enablement, Failure, UnitView, Units};
use vstd::prelude::*;

verus! {

/// The registry of one instance of the manager.
#[derive(Debug)]
pub enum Registry {
    /// The units were not listed yet.
    Uninitialized,
    /// The units of the last listing that went well.
    Populated(Units),
}

/// What a registry holds after a listing that ended as `outcome` says: the
/// units that were listed, or what it held before where the listing failed.
pub open spec fn refreshed<E>(
    before: Option<Seq<UnitView>>,
    outcome: Result<Seq<UnitView>, E>,
) -> Option<Seq<UnitView>> {
    match outcome {
        Ok(units) => Some(units),
        Err(_) => before,
    }
}

/// The place of the first unit of the name `name`, if there is one.
pub open spec fn is_place_of(units: Seq<UnitView>, name: Seq<char>, place: int) -> bool {
    &&& 0 <= place < units.len()
    &&& units[place].name == name
    &&& forall|k: int| 0 <= k < place ==> (#[trigger] units[k]).name != name
}

/// No unit has the name `name`.
pub open spec fn is_absent(units: Seq<UnitView>, name: Seq<char>) -> bool {
    forall|k: int| 0 <= k < units.len() ==> (#[trigger] units[k]).name != name
}

impl Registry {
    /// The units that the registry holds, once it holds any.
    pub open spec fn snapshot(&self) -> Option<Seq<UnitView>> {
        match self {
            Registry::Uninitialized => None,
            Registry::Populated(units) => Some(units@),
        }
    }

    /// A registry whose units were not listed yet.
    pub fn new() -> (registry: Registry)
        ensures
            registry.snapshot() is None,
    {
        Registry::Uninitialized
    }

    /// The units of the registry, once they were listed.
    pub fn units(&self) -> (units: Option<&Units>)
        ensures
            match units {
                Some(u) => self.snapshot() == Some(u@) && u.wf(),
                None => self.snapshot() is None,
            },
    {
        match self {
            Registry::Uninitialized => None,
            Registry::Populated(units) => {
                proof {
                    use_type_invariant(units);
                }
                Some(units)
            },
        }
    }

    /// Takes note of how a listing ended. The units of a listing that went
    /// well take the place of all that the registry held. A listing that
    /// failed leaves the registry as it was, and its failure is handed on.
    pub fn refresh<E>(&mut self, outcome: Result<Units, E>) -> (r: Result<(), E>)
        ensures
            final(self).snapshot() == refreshed(
                old(self).snapshot(),
                match outcome {
                    Ok(units) => Ok::<Seq<UnitView>, E>(units@),
                    Err(e) => Err(e),
                },
            ),
            match outcome {
                Ok(_) => r is Ok,
                Err(e) => r == Err::<(), E>(e),
            },
    {
        match outcome {
            Ok(units) => {
                *self = Registry::Populated(units);
                Ok(())
            },
            Err(e) => Err(e),
        }
    }

    /// Takes note of how the call that toggles the enablement of the unit
    /// `name` ended. After a call that went well that unit, found by its
    /// name, is disabled if it was enabled and enabled if it was not; no
    /// other unit changes. After a call that failed nothing changes.
    pub fn toggle_enablement(
        &mut self,
        name: &str,
        is_enabled: bool,
        outcome: Result<(), DbusError>,
    ) -> (r: Result<(), Failure>)
        ensures
            match outcome {
                Err(why) => r == Err::<(), Failure>(Failure::Transport(why)) && final(self).snapshot() == old(self).snapshot(),
                Ok(()) => match old(self).snapshot() {
                    None => r == Err::<(), Failure>(Failure::NotFound) && final(self).snapshot()
                        is None,
                    Some(units) => if is_absent(units, name@) {
                        r == Err::<(), Failure>(Failure::NotFound) && final(self).snapshot()
                            == Some(units)
                    } else {
                        exists|place: int|
                            {
                                &&& is_place_of(units, name@, place)
                                &&& r is Ok
                                &&& final(self).snapshot() == Some(
                                    units.update(
                                        place,
                                        toggled_enablement(units[place], is_enabled),
                                    ),
                                )
                            }
                    },
                },
            },
    {
        match outcome {
            Err(why) => Err(Failure::Transport(why)),
            Ok(()) => match self {
                Registry::Uninitialized => Err(Failure::NotFound),
                Registry::Populated(units) => match units.position(name) {
                    None => Err(Failure::NotFound),
                    Some(place) => {
                        let ghost before = units@;
                        let r = units.toggle_enablement(place, is_enabled, Ok(()));
                        assert(is_place_of(before, name@, place as int));
                        r
                    },
                },
            },
        }
    }

    /// Takes note of how the call that starts or stops the unit `name`
    /// ended. After a call that went well that unit, found by its name,
    /// runs if it did not and does not if it did; no other unit changes.
    /// After a call that failed nothing changes.
    pub fn toggle_activeness(
        &mut self,
        name: &str,
        is_active: bool,
        outcome: Result<(), DbusError>,
    ) -> (r: Result<(), Failure>)
        ensures
            match outcome {
                Err(why) => r == Err::<(), Failure>(Failure::Transport(why)) && final(self).snapshot() == old(self).snapshot(),
                Ok(()) => match old(self).snapshot() {
                    None => r == Err::<(), Failure>(Failure::NotFound) && final(self).snapshot()
                        is None,
                    Some(units) => if is_absent(units, name@) {
                        r == Err::<(), Failure>(Failure::NotFound) && final(self).snapshot()
                            == Some(units)
                    } else {
                        exists|place: int|
                            {
                                &&& is_place_of(units, name@, place)
                                &&& r is Ok
                                &&& final(self).snapshot() == Some(
                                    units.update(
                                        place,
                                        toggled_activeness(units[place], is_active),
                                    ),
                                )
                            }
                    },
                },
            },
    {
        match outcome {
            Err(why) => Err(Failure::Transport(why)),
            Ok(()) => match self {
                Registry::Uninitialized => Err(Failure::NotFound),
                Registry::Populated(units) => match units.position(name) {
                    None => Err(Failure::NotFound),
                    Some(place) => {
                        let ghost before = units@;
                        let r = units.toggle_activeness(place, is_active, Ok(()));
                        assert(is_place_of(before, name@, place as int));
                        r
                    },
                },
            },
        }
    }
}

/// Two listings that give the same units leave two registries with the same
/// units in the same order, whatever the registries held before.
pub proof fn lemma_refresh_repeatable<E>(
    first: Option<Seq<UnitView>>,
    second: Option<Seq<UnitView>>,
    units: Seq<UnitView>,
)
    ensures
        refreshed(first, Ok::<Seq<UnitView>, E>(units)) == refreshed(
            second,
            Ok::<Seq<UnitView>, E>(units),
        ),
        refreshed(refreshed(first, Ok::<Seq<UnitView>, E>(units)), Ok::<Seq<UnitView>, E>(units))
            == refreshed(first, Ok::<Seq<UnitView>, E>(units)),
{
}

} // verus!
