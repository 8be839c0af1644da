//! Joining and concatenating text, stated over character sequences.
use vstd::prelude::*;

verus! {

/// The characters of each string, in order.
pub open spec fn views(v: Seq<String>) -> Seq<Seq<char>> {
    v.map_values(|s: String| s@)
}

/// `fields` with `delim` between each two consecutive ones.
pub open spec fn join(fields: Seq<Seq<char>>, delim: Seq<char>) -> Seq<char>
    decreases fields.len(),
{
    if fields.len() == 0 {
        Seq::empty()
    } else if fields.len() == 1 {
        fields[0]
    } else {
        join(fields.drop_last(), delim) + delim + fields.last()
    }
}

/// The strings of `fields` joined by `delim`.
pub fn join_fields(fields: &Vec<String>, delim: &str) -> (r: String)
    ensures
        r@ == join(views(fields@), delim@),
{
    let mut out = String::new();
    let mut i: usize = 0;
    while i < fields.len()
        invariant
            i <= fields.len(),
            out@ == join(views(fields@).take(i as int), delim@),
        decreases fields.len() - i,
    {
        let ghost before = views(fields@).take(i as int);
        let ghost after = views(fields@).take(i as int + 1);
        assert(after.drop_last() =~= before);
        if i > 0 {
            out.append(delim);
        } else {
            assert(out@ =~= Seq::<char>::empty());
        }
        out.append(fields[i].as_str());
        i = i + 1;
        assert(out@ =~= join(after, delim@));
    }
    assert(views(fields@).take(i as int) =~= views(fields@));
    out
}

} // verus!
