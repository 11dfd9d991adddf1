//! Installing each sample's inferred response schema into the registry
//! under the sample's response object name.

use vstd::prelude::*;
use crate::http::RequestResponse;
use crate::openapi::{create_schema, spec_infer};
use crate::openapi::components::{
    Components, Entries, contains_name, spec_insert_entries, lemma_prefix_trans,
    lemma_insert_prefix, lemma_find_prefix, lemma_refs_valid_monotone,
};

verus! {

/// What one sample leaves in the registry: the inference's own additions,
/// then its top-level schema under the response object name, first writer
/// winning.
pub open spec fn spec_add_response(entries: Entries, rr: RequestResponse) -> Entries {
    let inf = spec_infer(entries, rr.response.data, None, rr.info.object_name@);
    spec_insert_entries(inf.0, rr.info.response_object_name@, inf.1)
}

/// What a batch of samples leaves in the registry, in order.
pub open spec fn spec_add_responses(entries: Entries, rrs: Seq<RequestResponse>) -> Entries
    decreases rrs.len(),
{
    if rrs.len() == 0 {
        entries
    } else {
        spec_add_response(spec_add_responses(entries, rrs.drop_last()), rrs.last())
    }
}

/// Infers the whole response body with no naming context and installs it
/// directly under the sample's response object name (first writer wins).
pub fn add_response_schemas(components: &mut Components, rr: &RequestResponse)
    ensures
        final(components).entries() == spec_add_response(old(components).entries(), *rr),
        old(components).entries().is_prefix_of(final(components).entries()),
        old(components).collisions@.is_prefix_of(final(components).collisions@),
        old(components).wf() ==> final(components).wf(),
        contains_name(final(components).entries(), rr.info.response_object_name@),
{
    let schema = create_schema(components, &rr.response.data, None, rr.info.object_name.as_str());
    let ghost mid_entries = components.entries();
    let ghost mid_cols = components.collisions@;
    proof {
        if old(components).wf() {
            assert(components.names().subset_of(
                components.names().insert(rr.info.response_object_name@),
            ));
            lemma_refs_valid_monotone(
                schema@,
                components.names(),
                components.names().insert(rr.info.response_object_name@),
            );
        }
    }
    let _collided = components.insert_if_absent(rr.info.response_object_name.clone(), schema);
    proof {
        lemma_insert_prefix(mid_entries, rr.info.response_object_name@, schema@);
        lemma_prefix_trans(old(components).entries(), mid_entries, components.entries());
        assert(mid_cols.is_prefix_of(components.collisions@)) by {
            assert(mid_cols =~= components.collisions@.subrange(0, mid_cols.len() as int));
        }
        lemma_prefix_trans(old(components).collisions@, mid_cols, components.collisions@);
    }
}

/// Walks every sample, adding its response schema components. One pass,
/// in sample order; the registry ends as the fold of each sample's
/// additions, and every sample's response object name is registered.
pub fn create_schema_for_responses(rrs: &Vec<RequestResponse>, components: &mut Components)
    ensures
        final(components).entries() == spec_add_responses(old(components).entries(), rrs@),
        old(components).entries().is_prefix_of(final(components).entries()),
        old(components).collisions@.is_prefix_of(final(components).collisions@),
        old(components).wf() ==> final(components).wf(),
        forall|i: int|
            0 <= i < rrs@.len() ==> contains_name(
                final(components).entries(),
                #[trigger] rrs@[i].info.response_object_name@,
            ),
{
    let mut i: usize = 0;
    proof {
        assert(old(components).entries().is_prefix_of(components.entries())) by {
            assert(components.entries() =~= components.entries().subrange(
                0,
                components.entries().len() as int,
            ));
        }
        assert(old(components).collisions@.is_prefix_of(components.collisions@)) by {
            assert(components.collisions@ =~= components.collisions@.subrange(
                0,
                components.collisions@.len() as int,
            ));
        }
        assert(rrs@.subrange(0, 0) =~= Seq::<RequestResponse>::empty());
    }
    while i < rrs.len()
        invariant
            i <= rrs@.len(),
            components.entries() == spec_add_responses(
                old(components).entries(),
                rrs@.subrange(0, i as int),
            ),
            old(components).entries().is_prefix_of(components.entries()),
            old(components).collisions@.is_prefix_of(components.collisions@),
            old(components).wf() ==> components.wf(),
            forall|j: int|
                0 <= j < i ==> contains_name(
                    components.entries(),
                    #[trigger] rrs@[j].info.response_object_name@,
                ),
        decreases rrs@.len() - i,
    {
        let ghost before = components.entries();
        let ghost cols_before = components.collisions@;
        proof {
            assert(rrs@.subrange(0, i + 1) =~= rrs@.subrange(0, i as int).push(rrs@[i as int]));
            assert(rrs@.subrange(0, i + 1).drop_last() =~= rrs@.subrange(0, i as int));
        }
        add_response_schemas(components, &rrs[i]);
        proof {
            lemma_prefix_trans(old(components).entries(), before, components.entries());
            lemma_prefix_trans(old(components).collisions@, cols_before, components.collisions@);
            assert forall|j: int| 0 <= j < i + 1 implies contains_name(
                components.entries(),
                #[trigger] rrs@[j].info.response_object_name@,
            ) by {
                if j < i {
                    lemma_find_prefix(
                        before,
                        components.entries(),
                        rrs@[j].info.response_object_name@,
                    );
                }
            }
            assert(components.entries() == spec_add_responses(
                old(components).entries(),
                rrs@.subrange(0, i + 1),
            ));
        }
        i = i + 1;
    }
    proof {
        assert(rrs@.subrange(0, rrs@.len() as int) =~= rrs@);
    }
}

} // verus!
