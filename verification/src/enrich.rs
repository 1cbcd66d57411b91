use vstd::prelude::*;

use crate::dependent::Dependent;

verus! {

// Enrichment fetches one description per selected record, up to five fetches
// in flight at a time. The fetching and the concurrency belong to the
// caller; what is verified is the association: each description lands on the
// record it was fetched for, whatever order the fetches complete in.

/// The number of description fetches allowed in flight at once.
pub const ENRICHMENT_CONCURRENCY: usize = 5;

/// Attach the description fetched for each selected record to that record;
/// keys and star texts pass through untouched.
pub fn attach_descriptions(selected: &Vec<Dependent>, descriptions: &Vec<Option<String>>) -> (r:
    Vec<Dependent>)
    requires
        descriptions@.len() == selected@.len(),
    ensures
        r@.len() == selected@.len(),
        forall|i: int|
            0 <= i < r@.len() ==> (#[trigger] r@[i]).repo@ == selected@[i].repo@ && r@[i].stars@
                == selected@[i].stars@ && r@[i].description.deep_view()
                == descriptions@[i].deep_view(),
{
    let n = selected.len();
    let mut out: Vec<Dependent> = Vec::new();
    let mut i: usize = 0;
    while i < n
        invariant
            0 <= i <= n,
            n == selected@.len(),
            descriptions@.len() == n,
            out@.len() == i,
            forall|q: int|
                0 <= q < i ==> (#[trigger] out@[q]).repo@ == selected@[q].repo@ && out@[q].stars@
                    == selected@[q].stars@ && out@[q].description.deep_view()
                    == descriptions@[q].deep_view(),
        decreases n - i,
    {
        let desc: Option<String> = match &descriptions[i] {
            None => None,
            Some(d) => Some(d.clone()),
        };
        proof {
            assert(desc.deep_view() == descriptions@[i as int].deep_view());
        }
        let ghost before = out@;
        let repo = selected[i].repo.clone();
        let stars = selected[i].stars.clone();
        proof {
            assert(repo@ == selected@[i as int].repo@);
            assert(stars@ == selected@[i as int].stars@);
        }
        out.push(Dependent { repo, stars, description: desc });
        proof {
            assert(out@.len() == i + 1);
            assert(out@[i as int].repo@ == selected@[i as int].repo@);
            assert(out@[i as int].stars@ == selected@[i as int].stars@);
            assert(out@[i as int].description.deep_view() == descriptions@[i as int].deep_view());
            assert forall|q: int| 0 <= q < i + 1 implies (#[trigger] out@[q]).repo@
                == selected@[q].repo@ && out@[q].stars@ == selected@[q].stars@
                && out@[q].description.deep_view() == descriptions@[q].deep_view() by {
                if q < i {
                    assert(out@[q] == before[q]);
                    assert(before[q].repo@ == selected@[q].repo@);
                }
            }
        }
        i = i + 1;
    }
    out
}

} // verus!
