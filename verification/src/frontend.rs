//! Response headers: what the HTTP boundary reports about how a request
//! was served. The boundary itself (HTTP, client IPs, authentication)
//! stays outside the library; this computes the header values.

use vstd::prelude::*;
use vstd::string::StringExecFns;

verus! {

/// The backend names joined with commas, in serving order; empty when no
/// backend served the call (a cache hit).
pub open spec fn spec_joined_names(rpcs: Seq<(String, bool)>) -> Seq<char>
    decreases rpcs.len(),
{
    if rpcs.len() == 0 {
        Seq::<char>::empty()
    } else if rpcs.len() == 1 {
        rpcs[0].0@
    } else {
        spec_joined_names(rpcs.drop_last()) + ","@ + rpcs.last().0@
    }
}

/// Whether any backend used was flagged as a backup.
pub open spec fn spec_any_backup(rpcs: Seq<(String, bool)>) -> bool {
    exists|j: int| 0 <= j < rpcs.len() && (#[trigger] rpcs[j]).1
}

/// The values of the backend-reporting headers for one served request:
/// the comma-joined names of the backends that served it, and whether any
/// of them was a backup.
pub fn backend_rpcs_header(rpcs: &Vec<(String, bool)>) -> (r: (String, bool))
    ensures
        r.0@ == spec_joined_names(rpcs@),
        r.1 == spec_any_backup(rpcs@),
{
    let mut joined = String::new();
    let mut backup = false;
    let mut i: usize = 0;
    while i < rpcs.len()
        invariant
            i <= rpcs@.len(),
            joined@ == spec_joined_names(rpcs@.take(i as int)),
            backup == exists|j: int| 0 <= j < i && (#[trigger] rpcs@[j]).1,
        decreases rpcs@.len() - i,
    {
        proof {
            assert(rpcs@.take(i as int + 1).drop_last() =~= rpcs@.take(i as int));
            assert(rpcs@.take(i as int + 1).last() == rpcs@[i as int]);
        }
        if i > 0 {
            joined.append(",");
        } else {
            proof {
                assert(Seq::<char>::empty() + ","@ + rpcs@[0].0@ =~= ","@ + rpcs@[0].0@);
            }
        }
        joined.append(rpcs[i].0.as_str());
        let was_backup = backup;
        if rpcs[i].1 {
            backup = true;
        }
        proof {
            if i == 0 {
                assert(joined@ =~= spec_joined_names(rpcs@.take(1)));
            }
            if backup {
                if !was_backup {
                    assert(rpcs@[i as int].1);
                }
            } else {
                assert(forall|j: int| 0 <= j < i + 1 ==> !(#[trigger] rpcs@[j]).1);
            }
        }
        i += 1;
    }
    proof {
        assert(rpcs@.take(rpcs@.len() as int) =~= rpcs@);
    }
    (joined, backup)
}

} // verus!
