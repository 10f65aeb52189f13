//! Helper for retrieving translations from a loaded store by unit
//! identifier or by source text.

use vstd::prelude::*;
use vstd::string::StringSliceAdditionalSpecFns;
use crate::store::{
    Store, StoreView, FileView, Unit, UnitView, XliffError, initial_state, spec_run, store_norm,
};

verus! {

/// First unit in `units` whose identifier equals `id`.
pub open spec fn spec_find_in_units_by_id(units: Seq<UnitView>, id: Seq<char>) -> Option<UnitView>
    decreases units.len(),
{
    if units.len() == 0 {
        Option::None
    } else if units[0].id == id {
        Option::Some(units[0])
    } else {
        spec_find_in_units_by_id(units.drop_first(), id)
    }
}

/// First unit in `units` whose source text equals `text`.
pub open spec fn spec_find_in_units_by_source(units: Seq<UnitView>, text: Seq<char>) -> Option<
    UnitView,
>
    decreases units.len(),
{
    if units.len() == 0 {
        Option::None
    } else if units[0].source == Option::Some(text) {
        Option::Some(units[0])
    } else {
        spec_find_in_units_by_source(units.drop_first(), text)
    }
}

/// First group whose address equals `domain`.
pub open spec fn spec_find_group(groups: Seq<FileView>, domain: Seq<char>) -> Option<FileView>
    decreases groups.len(),
{
    if groups.len() == 0 {
        Option::None
    } else if groups[0].address == domain {
        Option::Some(groups[0])
    } else {
        spec_find_group(groups.drop_first(), domain)
    }
}

/// First unit over all groups, in store order, whose identifier equals
/// `id`.
pub open spec fn spec_find_id_all(groups: Seq<FileView>, id: Seq<char>) -> Option<UnitView>
    decreases groups.len(),
{
    if groups.len() == 0 {
        Option::None
    } else {
        match spec_find_in_units_by_id(groups[0].units, id) {
            Option::Some(u) => Option::Some(u),
            Option::None => spec_find_id_all(groups.drop_first(), id),
        }
    }
}

/// First unit over all groups, in store order, whose source text equals
/// `text`.
pub open spec fn spec_find_source_all(groups: Seq<FileView>, text: Seq<char>) -> Option<UnitView>
    decreases groups.len(),
{
    if groups.len() == 0 {
        Option::None
    } else {
        match spec_find_in_units_by_source(groups[0].units, text) {
            Option::Some(u) => Option::Some(u),
            Option::None => spec_find_source_all(groups.drop_first(), text),
        }
    }
}

/// The image of an optional domain argument.
pub open spec fn opt_str_view(domain: Option<&str>) -> Option<Seq<char>> {
    match domain {
        Option::Some(d) => Option::Some(d@),
        Option::None => Option::None,
    }
}

/// First unit matching `id`: over all groups when `domain` is absent,
/// otherwise only within the first group whose address equals `domain`.
pub open spec fn spec_find_by_id(s: StoreView, domain: Option<Seq<char>>, id: Seq<char>) -> Option<
    UnitView,
> {
    match domain {
        Option::None => spec_find_id_all(s.groups, id),
        Option::Some(d) => match spec_find_group(s.groups, d) {
            Option::None => Option::None,
            Option::Some(g) => spec_find_in_units_by_id(g.units, id),
        },
    }
}

/// First unit matching `text` as its source, with the same scoping as
/// [`spec_find_by_id`].
pub open spec fn spec_find_by_source(
    s: StoreView,
    domain: Option<Seq<char>>,
    text: Seq<char>,
) -> Option<UnitView> {
    match domain {
        Option::None => spec_find_source_all(s.groups, text),
        Option::Some(d) => match spec_find_group(s.groups, d) {
            Option::None => Option::None,
            Option::Some(g) => spec_find_in_units_by_source(g.units, text),
        },
    }
}

/// Translation helper over a loaded store.
pub struct T {
    /// The currently loaded translations, grouped by original document.
    pub store: Store,
}

impl T {
    /// Reads and interprets the contents of the specified string: on
    /// success the helper holds exactly the store that loading the
    /// string's bytes into a fresh store yields, and input that is not
    /// well-formed at the tokenizer level is reported as the error.
    pub fn load_str(string: &str) -> (r: Result<T, XliffError>)
        ensures
            (r matches Ok(t) ==> t.store@ == spec_run(
                initial_state(),
                crate::xml::doc_events(string.spec_bytes()),
            ).store && crate::xml::doc_wf(string.spec_bytes()) && store_norm(t.store@)),
    {
        let mut store: Store = Store::new();
        proof {
            assert(initial_state().store =~~= (StoreView { groups: Seq::<FileView>::empty() }));
        }
        match store.load(string.as_bytes()) {
            Result::Ok(()) => Result::Ok(T { store }),
            Result::Err(e) => Result::Err(e),
        }
    }

    /// Returns the first translation unit matching the provided `unit_id`,
    /// scanning all groups in store order, or only the first group whose
    /// address equals `domain` when one is given.
    pub fn t(&self, domain: Option<&str>, unit_id: &str) -> (r: Option<&Unit>)
        ensures
            match r {
                Option::Some(u) => spec_find_by_id(self.store@, opt_str_view(domain), unit_id@)
                    == Option::Some(u@),
                Option::None => (spec_find_by_id(self.store@, opt_str_view(domain), unit_id@)
                    is None),
            },
    {
        let key = unit_id.to_owned();
        let ghost gs = self.store@.groups;
        proof {
            assert(gs.skip(0) =~= gs);
        }
        match domain {
            Option::None => {
                let mut i: usize = 0;
                while i < self.store.groups.len()
                    invariant
                        i <= gs.len(),
                        gs == self.store@.groups,
                        key@ == unit_id@,
                        (opt_str_view(domain) is None),
                        spec_find_id_all(gs, unit_id@) == spec_find_id_all(
                            gs.skip(i as int),
                            unit_id@,
                        ),
                    decreases gs.len() - i,
                {
                    let group = &self.store.groups[i];
                    let ghost units = group@.units;
                    proof {
                        assert(units.skip(0) =~= units);
                    }
                    let mut j: usize = 0;
                    while j < group.units.len()
                        invariant
                            j <= units.len(),
                            i < gs.len(),
                            gs == self.store@.groups,
                            units == group@.units,
                            group@ == gs[i as int],
                            key@ == unit_id@,
                            (opt_str_view(domain) is None),
                            spec_find_id_all(gs, unit_id@) == spec_find_id_all(
                                gs.skip(i as int),
                                unit_id@,
                            ),
                            spec_find_in_units_by_id(units, unit_id@) == spec_find_in_units_by_id(
                                units.skip(j as int),
                                unit_id@,
                            ),
                        decreases units.len() - j,
                    {
                        let unit = &group.units[j];
                        if unit.id == key {
                            proof {
                                assert(units.skip(j as int)[0] == unit@);
                                assert(gs.skip(i as int)[0] == group@);
                            }
                            return Option::Some(unit);
                        }
                        proof {
                            assert(units.skip(j as int).drop_first() =~= units.skip(j as int + 1));
                        }
                        j = j + 1;
                    }
                    proof {
                        assert(units.skip(units.len() as int) =~= Seq::<UnitView>::empty());
                        assert(gs.skip(i as int)[0] == group@);
                        assert(gs.skip(i as int).drop_first() =~= gs.skip(i as int + 1));
                    }
                    i = i + 1;
                }
                proof {
                    assert(gs.skip(gs.len() as int) =~= Seq::<FileView>::empty());
                }
                Option::None
            }
            Option::Some(address) => {
                let addr = address.to_owned();
                let mut i: usize = 0;
                while i < self.store.groups.len()
                    invariant
                        i <= gs.len(),
                        gs == self.store@.groups,
                        key@ == unit_id@,
                        addr@ == address@,
                        opt_str_view(domain) == Option::Some(address@),
                        spec_find_group(gs, address@) == spec_find_group(
                            gs.skip(i as int),
                            address@,
                        ),
                    decreases gs.len() - i,
                {
                    let group = &self.store.groups[i];
                    proof {
                        assert(gs.skip(i as int)[0] == group@);
                    }
                    if group.address == addr {
                        let ghost units = group@.units;
                        proof {
                            assert(spec_find_group(gs.skip(i as int), address@) == Option::Some(
                                group@,
                            ));
                            assert(units.skip(0) =~= units);
                        }
                        let mut j: usize = 0;
                        while j < group.units.len()
                            invariant
                                j <= units.len(),
                                gs == self.store@.groups,
                                units == group@.units,
                                key@ == unit_id@,
                                opt_str_view(domain) == Option::Some(address@),
                                spec_find_group(gs, address@) == Option::Some(group@),
                                spec_find_in_units_by_id(units, unit_id@)
                                    == spec_find_in_units_by_id(units.skip(j as int), unit_id@),
                            decreases units.len() - j,
                        {
                            let unit = &group.units[j];
                            if unit.id == key {
                                proof {
                                    assert(units.skip(j as int)[0] == unit@);
                                }
                                return Option::Some(unit);
                            }
                            proof {
                                assert(units.skip(j as int).drop_first() =~= units.skip(
                                    j as int + 1,
                                ));
                            }
                            j = j + 1;
                        }
                        proof {
                            assert(units.skip(units.len() as int) =~= Seq::<UnitView>::empty());
                        }
                        return Option::None;
                    }
                    proof {
                        assert(gs.skip(i as int).drop_first() =~= gs.skip(i as int + 1));
                    }
                    i = i + 1;
                }
                proof {
                    assert(gs.skip(gs.len() as int) =~= Seq::<FileView>::empty());
                }
                Option::None
            }
        }
    }

    /// Returns the first translation unit whose source text matches the
    /// provided `source_text`, with the same scoping as [`T::t`].
    pub fn t_source(&self, domain: Option<&str>, source_text: &str) -> (r: Option<&Unit>)
        ensures
            match r {
                Option::Some(u) => spec_find_by_source(
                    self.store@,
                    opt_str_view(domain),
                    source_text@,
                ) == Option::Some(u@),
                Option::None => (spec_find_by_source(self.store@, opt_str_view(domain),
                    source_text@) is None),
            },
    {
        let key = source_text.to_owned();
        let ghost gs = self.store@.groups;
        proof {
            assert(gs.skip(0) =~= gs);
        }
        match domain {
            Option::None => {
                let mut i: usize = 0;
                while i < self.store.groups.len()
                    invariant
                        i <= gs.len(),
                        gs == self.store@.groups,
                        key@ == source_text@,
                        (opt_str_view(domain) is None),
                        spec_find_source_all(gs, source_text@) == spec_find_source_all(
                            gs.skip(i as int),
                            source_text@,
                        ),
                    decreases gs.len() - i,
                {
                    let group = &self.store.groups[i];
                    let ghost units = group@.units;
                    proof {
                        assert(units.skip(0) =~= units);
                    }
                    let mut j: usize = 0;
                    while j < group.units.len()
                        invariant
                            j <= units.len(),
                            i < gs.len(),
                            gs == self.store@.groups,
                            units == group@.units,
                            group@ == gs[i as int],
                            key@ == source_text@,
                            (opt_str_view(domain) is None),
                            spec_find_source_all(gs, source_text@) == spec_find_source_all(
                                gs.skip(i as int),
                                source_text@,
                            ),
                            spec_find_in_units_by_source(units, source_text@)
                                == spec_find_in_units_by_source(units.skip(j as int), source_text@),
                        decreases units.len() - j,
                    {
                        let unit = &group.units[j];
                        let matched = match unit.source.as_ref() {
                            Option::None => false,
                            Option::Some(v) => v.text == key,
                        };
                        if matched {
                            proof {
                                assert(units.skip(j as int)[0] == unit@);
                                assert(gs.skip(i as int)[0] == group@);
                            }
                            return Option::Some(unit);
                        }
                        proof {
                            assert(units.skip(j as int)[0] == unit@);
                            assert(units.skip(j as int).drop_first() =~= units.skip(j as int + 1));
                        }
                        j = j + 1;
                    }
                    proof {
                        assert(units.skip(units.len() as int) =~= Seq::<UnitView>::empty());
                        assert(gs.skip(i as int)[0] == group@);
                        assert(gs.skip(i as int).drop_first() =~= gs.skip(i as int + 1));
                    }
                    i = i + 1;
                }
                proof {
                    assert(gs.skip(gs.len() as int) =~= Seq::<FileView>::empty());
                }
                Option::None
            }
            Option::Some(address) => {
                let addr = address.to_owned();
                let mut i: usize = 0;
                while i < self.store.groups.len()
                    invariant
                        i <= gs.len(),
                        gs == self.store@.groups,
                        key@ == source_text@,
                        addr@ == address@,
                        opt_str_view(domain) == Option::Some(address@),
                        spec_find_group(gs, address@) == spec_find_group(
                            gs.skip(i as int),
                            address@,
                        ),
                    decreases gs.len() - i,
                {
                    let group = &self.store.groups[i];
                    proof {
                        assert(gs.skip(i as int)[0] == group@);
                    }
                    if group.address == addr {
                        let ghost units = group@.units;
                        proof {
                            assert(spec_find_group(gs.skip(i as int), address@) == Option::Some(
                                group@,
                            ));
                            assert(units.skip(0) =~= units);
                        }
                        let mut j: usize = 0;
                        while j < group.units.len()
                            invariant
                                j <= units.len(),
                                gs == self.store@.groups,
                                units == group@.units,
                                key@ == source_text@,
                                opt_str_view(domain) == Option::Some(address@),
                                spec_find_group(gs, address@) == Option::Some(group@),
                                spec_find_in_units_by_source(units, source_text@)
                                    == spec_find_in_units_by_source(
                                    units.skip(j as int),
                                    source_text@,
                                ),
                            decreases units.len() - j,
                        {
                            let unit = &group.units[j];
                            let matched = match unit.source.as_ref() {
                                Option::None => false,
                                Option::Some(v) => v.text == key,
                            };
                            if matched {
                                proof {
                                    assert(units.skip(j as int)[0] == unit@);
                                }
                                return Option::Some(unit);
                            }
                            proof {
                                assert(units.skip(j as int)[0] == unit@);
                                assert(units.skip(j as int).drop_first() =~= units.skip(
                                    j as int + 1,
                                ));
                            }
                            j = j + 1;
                        }
                        proof {
                            assert(units.skip(units.len() as int) =~= Seq::<UnitView>::empty());
                        }
                        return Option::None;
                    }
                    proof {
                        assert(gs.skip(i as int).drop_first() =~= gs.skip(i as int + 1));
                    }
                    i = i + 1;
                }
                proof {
                    assert(gs.skip(gs.len() as int) =~= Seq::<FileView>::empty());
                }
                Option::None
            }
        }
    }
}

} // verus!
