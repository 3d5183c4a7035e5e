//! Laws of the filter-and-project stage, stated over its specification and
//! proved once for all inputs.

use vstd::prelude::*;

use crate::model::DbInstanceView;
use crate::model::DiscoveryEntryView;
use crate::model::TagFilterView;
use crate::model::TagView;
use crate::model::entry_of;
use crate::model::instance_complete;
use crate::select::DiscoveryError;
use crate::select::discover_spec;
use crate::select::instance_selected;
use crate::select::selected_at;
use crate::select::tag_list_has;

verus! {

/// The records of a wholly complete enumeration, one per instance, in order.
pub open spec fn entries_of(instances: Seq<DbInstanceView>) -> Seq<DiscoveryEntryView> {
    instances.map_values(|d: DbInstanceView| entry_of(d))
}

/// Without a filter the pass is the identity projection: one record per
/// instance, in enumeration order, fields copied verbatim.
pub proof fn lemma_no_filter_identity(instances: Seq<DbInstanceView>, tag_sets: Seq<Seq<TagView>>)
    requires
        forall|i: int| 0 <= i < instances.len() ==> instance_complete(#[trigger] instances[i]),
    ensures
        discover_spec(instances, tag_sets, None) == Ok::<
            Seq<DiscoveryEntryView>,
            DiscoveryError,
        >(entries_of(instances)),
    decreases instances.len(),
{
    if instances.len() == 0 {
        assert(entries_of(instances) =~= Seq::<DiscoveryEntryView>::empty());
    } else {
        assert(forall|i: int|
            0 <= i < instances.drop_first().len() ==> instance_complete(
                #[trigger] instances.drop_first()[i],
            ));
        lemma_no_filter_identity(instances.drop_first(), tag_sets);
        assert(seq![entry_of(instances[0])] + entries_of(instances.drop_first()) =~= entries_of(
            instances,
        ));
    }
}

/// An empty enumeration yields the empty document, filter or no filter.
pub proof fn lemma_empty_enumeration(
    tag_sets: Seq<Seq<TagView>>,
    filters: Option<Seq<TagFilterView>>,
)
    ensures
        discover_spec(Seq::empty(), tag_sets, filters) == Ok::<
            Seq<DiscoveryEntryView>,
            DiscoveryError,
        >(Seq::empty()),
        crate::render::render_doc_spec(Seq::empty()) == "{\n  \"data\": []\n}"@,
{
}

/// OR semantics across filter entries: one matching key/value pair is enough
/// to select an instance.
pub proof fn lemma_or_selects(tags: Seq<TagView>, filters: Seq<TagFilterView>, j: int)
    requires
        0 <= j < filters.len(),
        tag_list_has(tags, filters[j].key, filters[j].value),
    ensures
        instance_selected(tags, filters),
{
}

/// A selected complete instance enters the document exactly once, however
/// many filter entries happen to match it.
pub proof fn lemma_selected_once(
    db: DbInstanceView,
    tags: Seq<TagView>,
    filters: Seq<TagFilterView>,
)
    requires
        instance_selected(tags, filters),
        instance_complete(db),
    ensures
        discover_spec(seq![db], seq![tags], Some(filters)) == Ok::<
            Seq<DiscoveryEntryView>,
            DiscoveryError,
        >(seq![entry_of(db)]),
{
    assert(seq![db].drop_first() =~= Seq::<DbInstanceView>::empty());
    assert(seq![tags].drop_first() =~= Seq::<Seq<TagView>>::empty());
    assert(discover_spec(
        Seq::<DbInstanceView>::empty(),
        Seq::<Seq<TagView>>::empty(),
        Some(filters),
    ) == Ok::<Seq<DiscoveryEntryView>, DiscoveryError>(Seq::empty()));
    assert(seq![entry_of(db)] + Seq::<DiscoveryEntryView>::empty() =~= seq![entry_of(db)]);
}

/// An instance that matches no filter entry is omitted entirely.
pub proof fn lemma_unselected_excluded(
    db: DbInstanceView,
    tags: Seq<TagView>,
    filters: Seq<TagFilterView>,
)
    requires
        !instance_selected(tags, filters),
    ensures
        discover_spec(seq![db], seq![tags], Some(filters)) == Ok::<
            Seq<DiscoveryEntryView>,
            DiscoveryError,
        >(Seq::<DiscoveryEntryView>::empty()),
{
    assert(seq![db].drop_first() =~= Seq::<DbInstanceView>::empty());
    assert(seq![tags].drop_first() =~= Seq::<Seq<TagView>>::empty());
    assert(discover_spec(
        Seq::<DbInstanceView>::empty(),
        Seq::<Seq<TagView>>::empty(),
        Some(filters),
    ) == Ok::<Seq<DiscoveryEntryView>, DiscoveryError>(Seq::empty()));
}

/// The pass is compositional: over two stretches of the enumeration it yields
/// the first stretch's records followed by the second's, and a failure in the
/// first stretch hides the second entirely.
pub proof fn lemma_discover_append(
    i1: Seq<DbInstanceView>,
    t1: Seq<Seq<TagView>>,
    i2: Seq<DbInstanceView>,
    t2: Seq<Seq<TagView>>,
    filters: Seq<TagFilterView>,
)
    requires
        i1.len() == t1.len(),
    ensures
        discover_spec(i1 + i2, t1 + t2, Some(filters)) == (match discover_spec(
            i1,
            t1,
            Some(filters),
        ) {
            Ok(r1) => match discover_spec(i2, t2, Some(filters)) {
                Ok(r2) => Ok::<Seq<DiscoveryEntryView>, DiscoveryError>(r1 + r2),
                Err(e) => Err(e),
            },
            Err(e) => Err::<Seq<DiscoveryEntryView>, DiscoveryError>(e),
        }),
    decreases i1.len(),
{
    if i1.len() == 0 {
        assert(i1 + i2 =~= i2);
        assert(t1 + t2 =~= t2);
        match discover_spec(i2, t2, Some(filters)) {
            Ok(r2) => {
                assert(Seq::<DiscoveryEntryView>::empty() + r2 =~= r2);
            },
            Err(_) => {},
        }
    } else {
        lemma_discover_append(i1.drop_first(), t1.drop_first(), i2, t2, filters);
        assert((i1 + i2)[0] == i1[0]);
        assert((t1 + t2)[0] == t1[0]);
        assert((i1 + i2).drop_first() =~= i1.drop_first() + i2);
        assert((t1 + t2).drop_first() =~= t1.drop_first() + t2);
        match discover_spec(i1.drop_first(), t1.drop_first(), Some(filters)) {
            Ok(r1) => match discover_spec(i2, t2, Some(filters)) {
                Ok(r2) => {
                    assert(seq![entry_of(i1[0])] + (r1 + r2) =~= (seq![entry_of(i1[0])] + r1)
                        + r2);
                },
                Err(_) => {},
            },
            Err(_) => {},
        }
    }
}

/// Fail fast: when any selected instance misses a required field, the whole
/// pass fails, and no partial document survives — even for instances that had
/// already matched.
pub proof fn lemma_fail_fast(
    instances: Seq<DbInstanceView>,
    tag_sets: Seq<Seq<TagView>>,
    filters: Option<Seq<TagFilterView>>,
    i: int,
)
    requires
        0 <= i < instances.len(),
        filters is Some ==> tag_sets.len() == instances.len(),
        selected_at(tag_sets, filters, i),
        !instance_complete(instances[i]),
    ensures
        discover_spec(instances, tag_sets, filters) is Err,
    decreases i,
{
    let rest_tags = if filters is Some {
        tag_sets.drop_first()
    } else {
        tag_sets
    };
    if i > 0 {
        assert(instances.drop_first()[i - 1] == instances[i]);
        if filters is Some {
            assert(tag_sets.drop_first()[i - 1] == tag_sets[i]);
        }
        lemma_fail_fast(instances.drop_first(), rest_tags, filters, i - 1);
    }
}

/// Success is owed: when every selected instance is complete, the pass
/// returns a document.
pub proof fn lemma_all_complete_ok(
    instances: Seq<DbInstanceView>,
    tag_sets: Seq<Seq<TagView>>,
    filters: Option<Seq<TagFilterView>>,
)
    requires
        filters is Some ==> tag_sets.len() == instances.len(),
        forall|k: int|
            0 <= k < instances.len() && selected_at(tag_sets, filters, k) ==> instance_complete(
                #[trigger] instances[k],
            ),
    ensures
        discover_spec(instances, tag_sets, filters) is Ok,
    decreases instances.len(),
{
    if instances.len() > 0 {
        let rest_tags = if filters is Some {
            tag_sets.drop_first()
        } else {
            tag_sets
        };
        assert forall|k: int|
            0 <= k < instances.drop_first().len() && selected_at(
                rest_tags,
                filters,
                k,
            ) implies instance_complete(#[trigger] instances.drop_first()[k]) by {
            assert(instances.drop_first()[k] == instances[k + 1]);
            if filters is Some {
                assert(tag_sets.drop_first()[k] == tag_sets[k + 1]);
            }
            assert(selected_at(tag_sets, filters, k + 1));
        }
        lemma_all_complete_ok(instances.drop_first(), rest_tags, filters);
        assert(selected_at(tag_sets, filters, 0) ==> instance_complete(instances[0]));
    }
}

} // verus!
