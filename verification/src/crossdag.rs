//! References from one run's graph into another's.
use vstd::prelude::*;

use crate::text;

verus! {

/// How a cross-DAG reference is written.
pub const SYNTAX: &'static str = "run:<run-id>#<node-id>";

/// What every cross-DAG reference begins with.
pub const PREFIX: &'static str = "run:";

/// The position of the first `#`, or the length where there is none.
pub open spec fn hash_at(s: Seq<char>, from: int) -> int
    decreases s.len() - from,
{
    if from >= s.len() {
        s.len() as int
    } else if s[from] == '#' {
        from
    } else {
        hash_at(s, from + 1)
    }
}

/// A reference that names a run and one of its nodes, neither of them empty.
pub open spec fn reference(s: Seq<char>) -> bool {
    &&& text::starts_with(s, PREFIX@)
    &&& PREFIX@.len() < hash_at(s, PREFIX@.len() as int)
    &&& hash_at(s, PREFIX@.len() as int) + 1 < s.len()
}

/// A reference that is meant as a cross-DAG one and is not written as one.
pub open spec fn malformed(s: Seq<char>) -> bool {
    text::starts_with(s, PREFIX@) && !reference(s)
}

/// Whether a dependency names a node of another run.
pub fn is_reference(s: &str) -> (r: bool)
    ensures
        r == reference(s@),
{
    if !text::begins(s, PREFIX) {
        return false;
    }
    let chars = text::chars_of(s);
    let start: usize = 4;
    proof {
        reveal_strlit("run:");
    }
    let mut i: usize = start;
    while i < chars.len() && chars[i] != '#'
        invariant
            chars@ == s@,
            start == 4,
            start <= i <= chars@.len(),
            hash_at(s@, start as int) == hash_at(s@, i as int),
        decreases chars@.len() - i,
    {
        i += 1;
    }
    start < i && i < chars.len() && i + 1 < chars.len()
}

/// Whether a dependency was meant as a cross-DAG reference and is not one.
pub fn is_malformed(s: &str) -> (r: bool)
    ensures
        r == malformed(s@),
{
    text::begins(s, PREFIX) && !is_reference(s)
}

/// A reference into another run is written `run:`, the run, `#` and the node, where the
/// run holds no `#` and neither is empty; and every text so written is one. What opens
/// as a reference and is not one is malformed.
pub proof fn law_a_reference_names_a_run_and_a_node(s: Seq<char>)
    ensures
        reference(s) <==> s.len() >= 4 && s[0] == 'r' && s[1] == 'u' && s[2] == 'n' && s[3] == ':'
            && exists|h: int|
            4 < h < s.len() - 1 && #[trigger] s[h] == '#' && forall|i: int|
                4 <= i < h ==> #[trigger] s[i] != '#',
        malformed(s) <==> !reference(s) && s.len() >= 4 && s[0] == 'r' && s[1] == 'u' && s[2]
            == 'n' && s[3] == ':',
{
    reveal_strlit("run:");
    if s.len() >= 4 {
        let t = s.subrange(0, 4);
        assert(t[0] == s[0] && t[1] == s[1] && t[2] == s[2] && t[3] == s[3]);
        if s[0] == 'r' && s[1] == 'u' && s[2] == 'n' && s[3] == ':' {
            assert(t =~= PREFIX@);
        }
    }
    lemma_hash_at(s, 4);
}

proof fn lemma_hash_at(s: Seq<char>, from: int)
    requires
        0 <= from,
    ensures
        from <= s.len() ==> from <= hash_at(s, from) <= s.len(),
        from <= hash_at(s, from) < s.len() ==> s[hash_at(s, from)] == '#',
        forall|i: int| from <= i < hash_at(s, from) && i < s.len() ==> s[i] != '#',
    decreases s.len() - from,
{
    if from < s.len() && s[from] != '#' {
        lemma_hash_at(s, from + 1);
    }
}

} // verus!
