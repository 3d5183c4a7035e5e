//! Filtering and projection: which enumerated instances enter the discovery
//! document, and the records they project to.

use vstd::prelude::*;

use crate::model::DbInstance;
use crate::model::DbInstanceView;
use crate::model::DiscoveryEntry;
use crate::model::DiscoveryEntryView;
use crate::model::Tag;
use crate::model::TagFilter;
use crate::model::TagFilterView;
use crate::model::TagView;
use crate::model::entry_of;
use crate::model::instance_complete;

verus! {

/// A fatal data-integrity gap: a selected instance misses a field that every
/// discovery record needs.
#[derive(Clone, Copy, Debug, PartialEq, Eq, Structural)]
pub enum DiscoveryError {
    MissingIdentifier,
    MissingEndpoint,
    MissingAddress,
    MissingPort,
}

/// The tag list carries a tag whose key and value are both present and equal
/// the given pair.
pub open spec fn tag_list_has(tags: Seq<TagView>, key: Seq<char>, value: Seq<char>) -> bool {
    exists|i: int|
        0 <= i < tags.len() && tags[i].key == Some(key) && tags[i].value == Some(value)
}

/// An instance is selected when at least one filter entry matches one of its
/// tags: a logical OR across the filter entries.
pub open spec fn instance_selected(tags: Seq<TagView>, filters: Seq<TagFilterView>) -> bool {
    exists|j: int|
        0 <= j < filters.len() && tag_list_has(tags, filters[j].key, filters[j].value)
}

/// The first field found missing on an incomplete instance, in the order the
/// projection reads them.
pub open spec fn first_gap(db: DbInstanceView) -> DiscoveryError
    recommends
        !instance_complete(db),
{
    if db.db_instance_identifier is None {
        DiscoveryError::MissingIdentifier
    } else if db.endpoint is None {
        DiscoveryError::MissingEndpoint
    } else if db.endpoint->Some_0.address is None {
        DiscoveryError::MissingAddress
    } else {
        DiscoveryError::MissingPort
    }
}

/// The whole filter-and-project stage, one instance at a time in enumeration
/// order: without a filter every instance is projected; with one, an instance
/// is projected exactly when it is selected. A selected instance with a
/// missing field aborts the pass with the first gap found, and nothing of the
/// pass survives. With a filter, `tag_sets[k]` is the tag list fetched for
/// instance `k`; without one, `tag_sets` is never read.
pub open spec fn discover_spec(
    instances: Seq<DbInstanceView>,
    tag_sets: Seq<Seq<TagView>>,
    filters: Option<Seq<TagFilterView>>,
) -> Result<Seq<DiscoveryEntryView>, DiscoveryError>
    decreases instances.len(),
{
    if instances.len() == 0 {
        Ok(Seq::empty())
    } else {
        let selected = match filters {
            Option::None => true,
            Option::Some(f) => instance_selected(tag_sets[0], f),
        };
        let rest_tags = match filters {
            Option::None => tag_sets,
            Option::Some(f) => tag_sets.drop_first(),
        };
        let rest = discover_spec(instances.drop_first(), rest_tags, filters);
        if selected {
            if !instance_complete(instances[0]) {
                Err(first_gap(instances[0]))
            } else {
                match rest {
                    Ok(r) => Ok(seq![entry_of(instances[0])] + r),
                    Err(e) => Err(e),
                }
            }
        } else {
            rest
        }
    }
}

/// Whether instance `i` of the pass is selected.
pub open spec fn selected_at(
    tag_sets: Seq<Seq<TagView>>,
    filters: Option<Seq<TagFilterView>>,
    i: int,
) -> bool {
    match filters {
        Option::None => true,
        Option::Some(f) => instance_selected(tag_sets[i], f),
    }
}

/// The view of an exec result of the filter-and-project stage.
pub open spec fn entries_view(
    r: Result<Vec<DiscoveryEntry>, DiscoveryError>,
) -> Result<Seq<DiscoveryEntryView>, DiscoveryError> {
    match r {
        Ok(v) => Ok(v.deep_view()),
        Err(e) => Err(e),
    }
}

/// Does this tag list carry a tag equal to the given key/value pair?
fn tag_list_contains(tags: &Vec<Tag>, key: &String, value: &String) -> (r: bool)
    ensures
        r == tag_list_has(tags.deep_view(), key@, value@),
{
    let mut i: usize = 0;
    while i < tags.len()
        invariant
            i <= tags@.len(),
            forall|k: int|
                0 <= k < i ==> !(#[trigger] tags.deep_view()[k].key == Some(key@)
                    && tags.deep_view()[k].value == Some(value@)),
        decreases tags@.len() - i,
    {
        let t = &tags[i];
        let key_eq = match &t.key {
            Option::Some(k) => *k == *key,
            Option::None => false,
        };
        let value_eq = match &t.value {
            Option::Some(v) => *v == *value,
            Option::None => false,
        };
        proof {
            assert(tags.deep_view()[i as int] == tags@[i as int]@);
            assert(key_eq == (t@.key == Some(key@)));
            assert(value_eq == (t@.value == Some(value@)));
        }
        if key_eq && value_eq {
            proof {
                assert(tags.deep_view()[i as int].key == Some(key@)
                    && tags.deep_view()[i as int].value == Some(value@));
            }
            return true;
        }
        i += 1;
    }
    false
}

/// Does any configured filter entry match one of the instance's tags, key and
/// value both? This is the OR across filter entries.
pub fn tags_match(tags: &Vec<Tag>, filters: &Vec<TagFilter>) -> (r: bool)
    ensures
        r == instance_selected(tags.deep_view(), filters.deep_view()),
{
    let mut j: usize = 0;
    while j < filters.len()
        invariant
            j <= filters@.len(),
            forall|k: int|
                0 <= k < j ==> !tag_list_has(
                    tags.deep_view(),
                    #[trigger] filters.deep_view()[k].key,
                    filters.deep_view()[k].value,
                ),
        decreases filters@.len() - j,
    {
        let f = &filters[j];
        proof {
            assert(filters.deep_view()[j as int] == filters@[j as int]@);
        }
        if tag_list_contains(tags, &f.key, &f.value) {
            return true;
        }
        j += 1;
    }
    false
}

/// Project one instance into its discovery record, fields copied verbatim;
/// report the first missing field of an incomplete one instead.
pub fn project_instance(db: &DbInstance) -> (r: Result<DiscoveryEntry, DiscoveryError>)
    ensures
        instance_complete(db@) ==> (r matches Ok(e) && e@ == entry_of(db@)),
        !instance_complete(db@) ==> r == Err::<DiscoveryEntry, DiscoveryError>(first_gap(db@)),
{
    let id = match &db.db_instance_identifier {
        Option::Some(s) => s.clone(),
        Option::None => {
            return Err(DiscoveryError::MissingIdentifier);
        },
    };
    let ep = match &db.endpoint {
        Option::Some(e) => e,
        Option::None => {
            return Err(DiscoveryError::MissingEndpoint);
        },
    };
    let address = match &ep.address {
        Option::Some(a) => a.clone(),
        Option::None => {
            return Err(DiscoveryError::MissingAddress);
        },
    };
    let port = match &ep.port {
        Option::Some(p) => *p,
        Option::None => {
            return Err(DiscoveryError::MissingPort);
        },
    };
    Ok(DiscoveryEntry { db_instance_identifier: id, address, port })
}

/// The filter-and-project stage. With a filter, `tag_sets[k]` must be the tag
/// list fetched for instance `k`; without one, `tag_sets` is never read and
/// may be empty.
pub fn discover_instances(
    instances: &Vec<DbInstance>,
    tag_sets: &Vec<Vec<Tag>>,
    filters: &Option<Vec<TagFilter>>,
) -> (r: Result<Vec<DiscoveryEntry>, DiscoveryError>)
    requires
        filters@ is Some ==> tag_sets@.len() == instances@.len(),
    ensures
        entries_view(r) == discover_spec(
            instances.deep_view(),
            tag_sets.deep_view(),
            filters.deep_view(),
        ),
{
    let ghost iv = instances.deep_view();
    let ghost tv = tag_sets.deep_view();
    let ghost fv = filters.deep_view();
    let mut data: Vec<DiscoveryEntry> = Vec::new();
    let mut i: usize = 0;
    proof {
        assert(iv.skip(0) =~= iv);
        assert(tv.skip(0) =~= tv);
        assert(data.deep_view() =~= Seq::<DiscoveryEntryView>::empty());
        match discover_spec(iv, tv, fv) {
            Ok(rest) => {
                assert(data.deep_view() + rest =~= rest);
            },
            Err(_) => {},
        }
    }
    while i < instances.len()
        invariant
            i <= instances@.len(),
            iv == instances.deep_view(),
            tv == tag_sets.deep_view(),
            fv == filters.deep_view(),
            fv is Some ==> tv.len() == iv.len(),
            discover_spec(iv, tv, fv) == (match discover_spec(
                iv.skip(i as int),
                (if fv is Some { tv.skip(i as int) } else { tv }),
                fv,
            ) {
                Ok(rest) => Ok(data.deep_view() + rest),
                Err(e) => Err::<Seq<DiscoveryEntryView>, DiscoveryError>(e),
            }),
        decreases instances@.len() - i,
    {
        let ghost tv_now: Seq<Seq<TagView>> = if fv is Some { tv.skip(i as int) } else { tv };
        let ghost tv_next: Seq<Seq<TagView>> = if fv is Some { tv.skip(i as int + 1) } else { tv };
        proof {
            assert(iv.skip(i as int)[0] == iv[i as int]);
            assert(iv.skip(i as int).drop_first() =~= iv.skip(i as int + 1));
            if fv is Some {
                assert(tv_now[0] == tv[i as int]);
                assert(tv_now.drop_first() =~= tv.skip(i as int + 1));
            }
        }
        let selected = match filters {
            Option::Some(f) => tags_match(&tag_sets[i], f),
            Option::None => true,
        };
        proof {
            if filters@ is Some {
                assert(tag_sets.deep_view()[i as int] == tag_sets@[i as int].deep_view());
            }
            assert(instances.deep_view()[i as int] == instances@[i as int]@);
        }
        if selected {
            match project_instance(&instances[i]) {
                Ok(e) => {
                    let ghost old_data = data.deep_view();
                    data.push(e);
                    proof {
                        assert(data.deep_view() =~= old_data + seq![e@]);
                        match discover_spec(iv.skip(i as int + 1), tv_next, fv) {
                            Ok(rest) => {
                                assert((old_data + seq![e@]) + rest =~= old_data + (seq![e@]
                                    + rest));
                            },
                            Err(_) => {},
                        }
                    }
                },
                Err(err) => {
                    return Err(err);
                },
            }
        }
        i += 1;
    }
    proof {
        assert(iv.skip(i as int) =~= Seq::<DbInstanceView>::empty());
        assert(data.deep_view() + Seq::<DiscoveryEntryView>::empty() =~= data.deep_view());
    }
    Ok(data)
}

} // verus!
