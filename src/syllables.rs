//! Joining the syllables of a word into one text.

use vstd::prelude::*;
use vstd::string::StringExecFns;

verus! {

/// The parts, in order, with `sep` between each two neighbours.
pub open spec fn join_spec(parts: Seq<Seq<char>>, sep: Seq<char>) -> Seq<char>
    decreases parts.len(),
{
    if parts.len() == 0 {
        Seq::empty()
    } else if parts.len() == 1 {
        parts[0]
    } else {
        join_spec(parts.drop_last(), sep) + sep + parts.last()
    }
}

/// Joins syllables into one text, with `separator` between each two.
pub fn join_syllables(syllables: &Vec<String>, separator: &str) -> (r: String)
    ensures
        r@ == join_spec(syllables@.map_values(|s: String| s@), separator@),
{
    let ghost parts = syllables@.map_values(|s: String| s@);
    let mut out = String::new();
    let mut i: usize = 0;
    while i < syllables.len()
        invariant
            i <= syllables.len(),
            parts == syllables@.map_values(|s: String| s@),
            out@ == join_spec(parts.take(i as int), separator@),
        decreases syllables.len() - i,
    {
        assert(parts.take(i as int + 1).drop_last() =~= parts.take(i as int));
        if i != 0 {
            out.append(separator);
        } else {
            assert(out@ =~= Seq::<char>::empty());
        }
        out.append(syllables[i].as_str());
        i = i + 1;
        assert(out@ =~= join_spec(parts.take(i as int), separator@));
    }
    assert(parts.take(i as int) =~= parts);
    out
}

} // verus!
