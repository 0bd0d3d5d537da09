//! Caller trust levels and their order: `anonymous` < `header_asserted`
//! < `verified`.

use vstd::prelude::*;
use crate::text::str_eq;

verus! {

/// The rank of a known trust level; `None` for any other string.
pub open spec fn trust_rank(level: Seq<char>) -> Option<int> {
    if level == "verified"@ {
        Some(2)
    } else if level == "header_asserted"@ {
        Some(1)
    } else if level == "anonymous"@ {
        Some(0)
    } else {
        None
    }
}

/// Whether `level` names one of the three trust levels.
pub open spec fn is_trust_level(level: Seq<char>) -> bool {
    trust_rank(level) is Some
}

/// A caller at trust level `caller` may see a tool that requires
/// `required` when both are known levels and the caller's ranks at least
/// as high; an unknown level on either side is never met.
pub open spec fn trust_meets(caller: Seq<char>, required: Seq<char>) -> bool {
    match (trust_rank(caller), trust_rank(required)) {
        (Some(c), Some(r)) => c >= r,
        _ => false,
    }
}

/// The rank of `level`, as `trust_rank` gives it.
pub fn trust_level_rank(level: &str) -> (r: Option<u8>)
    ensures
        match r {
            Some(n) => trust_rank(level@) == Some(n as int),
            None => trust_rank(level@) is None,
        },
{
    if str_eq(level, "verified") {
        Some(2)
    } else if str_eq(level, "header_asserted") {
        Some(1)
    } else if str_eq(level, "anonymous") {
        Some(0)
    } else {
        None
    }
}

/// Whether a caller at trust level `caller` meets the requirement `required`.
pub fn trust_level_meets(caller: &str, required: &str) -> (res: bool)
    ensures
        res == trust_meets(caller@, required@),
{
    match (trust_level_rank(caller), trust_level_rank(required)) {
        (Some(c), Some(r)) => c >= r,
        _ => false,
    }
}

/// The order of trust levels: each known level meets itself, `verified`
/// meets every known level, every known level meets `anonymous`, an
/// unknown level meets nothing and is met by nothing, and meeting is
/// transitive.
pub proof fn law_trust_order(a: Seq<char>, b: Seq<char>, c: Seq<char>)
    ensures
        is_trust_level(a) ==> trust_meets(a, a),
        is_trust_level(a) ==> trust_meets("verified"@, a),
        is_trust_level(a) ==> trust_meets(a, "anonymous"@),
        !is_trust_level(a) ==> !trust_meets(a, b) && !trust_meets(b, a),
        trust_meets(a, b) && trust_meets(b, c) ==> trust_meets(a, c),
{
    reveal_strlit("verified");
    reveal_strlit("header_asserted");
    reveal_strlit("anonymous");
    assert("verified"@.len() == 8);
    assert("header_asserted"@.len() == 15);
    assert("anonymous"@.len() == 9);
    assert("verified"@ != "header_asserted"@);
    assert("verified"@ != "anonymous"@);
    assert("anonymous"@ != "header_asserted"@);
}

} // verus!
