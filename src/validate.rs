//! Checks made on a batch before any encoding starts.

use vstd::prelude::*;
use crate::path::Utf8StemmedPathBuf;
use crate::text::{decimal, decimal_string, join_strings, joined, sorted_strings, str_le, views};

verus! {

/// The paths of the inputs whose stem is `stem`, in input order.
pub open spec fn paths_with_stem(inputs: Seq<Utf8StemmedPathBuf>, stem: Seq<char>) -> Seq<Seq<char>>
    decreases inputs.len(),
{
    if inputs.len() == 0 {
        Seq::empty()
    } else {
        let rest = paths_with_stem(inputs.drop_last(), stem);
        if inputs.last().spec_stem() == stem {
            rest.push(inputs.last()@)
        } else {
            rest
        }
    }
}

/// Two or more inputs have the stem `stem`.
pub open spec fn duplicated(inputs: Seq<Utf8StemmedPathBuf>, stem: Seq<char>) -> bool {
    paths_with_stem(inputs, stem).len() >= 2
}

/// The inputs that share one stem.
#[derive(Debug)]
pub struct StemGroup {
    pub stem: String,
    pub paths: Vec<String>,
}

/// The groups of inputs that share a stem, ordered by stem.
#[derive(Debug)]
pub struct DuplicateInputNames {
    pub groups: Vec<StemGroup>,
}

/// The stems of the groups.
pub open spec fn group_stems(groups: Seq<StemGroup>) -> Seq<Seq<char>> {
    groups.map_values(|g: StemGroup| g.stem@)
}

/// The line that reports one group: `- c (2 files): [a/b/c, d/c]`.
pub open spec fn group_line(g: StemGroup) -> Seq<char> {
    "- "@ + g.stem@ + " ("@ + decimal(g.paths@.len()) + " files): ["@ + joined(views(g.paths@), ", "@) + "]"@
}

/// The report of all groups, one line each.
pub open spec fn duplicates_text(groups: Seq<StemGroup>) -> Seq<char> {
    "The following input files have the same name, but they must be unique.\n"@
        + joined(groups.map_values(|g: StemGroup| group_line(g)), "\n"@)
}

/// `groups` lists every stem that two or more inputs share, once each, in
/// ascending order, with the paths that have it, in input order.
pub open spec fn reports_duplicates(inputs: Seq<Utf8StemmedPathBuf>, groups: Seq<StemGroup>) -> bool {
    let stems = group_stems(groups);
    &&& stems.no_duplicates()
    &&& forall|i: int, j: int| 0 <= i <= j < stems.len() ==> str_le(#[trigger] stems[i], #[trigger] stems[j])
    &&& forall|i: int| 0 <= i < stems.len() ==> duplicated(inputs, #[trigger] stems[i])
    &&& forall|i: int| 0 <= i < stems.len()
            ==> views((#[trigger] groups[i]).paths@) == paths_with_stem(inputs, groups[i].stem@)
    &&& forall|s: Seq<char>| duplicated(inputs, s) ==> stems.contains(s)
}

/// Some input has the stem of a non-empty list of paths that share it.
proof fn lemma_stem_occurs(inputs: Seq<Utf8StemmedPathBuf>, stem: Seq<char>)
    requires
        paths_with_stem(inputs, stem).len() > 0,
    ensures
        exists|j: int| 0 <= j < inputs.len() && (#[trigger] inputs[j]).spec_stem() == stem,
    decreases inputs.len(),
{
    let rest = inputs.drop_last();
    if inputs.last().spec_stem() == stem {
        assert(inputs[inputs.len() - 1] == inputs.last());
    } else {
        lemma_stem_occurs(rest, stem);
        let j = choose|j: int| 0 <= j < rest.len() && (#[trigger] rest[j]).spec_stem() == stem;
        assert(inputs[j] == rest[j]);
    }
}

/// The paths of the inputs whose stem is `stem`.
fn collect_paths(inputs: &Vec<Utf8StemmedPathBuf>, stem: &String) -> (r: Vec<String>)
    ensures
        views(r@) == paths_with_stem(inputs@, stem@),
{
    let mut r: Vec<String> = Vec::new();
    let mut i: usize = 0;
    while i < inputs.len()
        invariant
            i <= inputs@.len(),
            views(r@) == paths_with_stem(inputs@.take(i as int), stem@),
        decreases inputs@.len() - i,
    {
        let s = String::from_str(inputs[i].file_stem());
        let ghost before = r@;
        assert(inputs@.take(i + 1).drop_last() =~= inputs@.take(i as int));
        assert(inputs@.take(i + 1).last() == inputs@[i as int]);
        if s == *stem {
            r.push(String::from_str(inputs[i].as_path()));
            assert(views(r@) =~= views(before).push(inputs@[i as int]@));
        }
        i = i + 1;
    }
    assert(inputs@.take(inputs@.len() as int) =~= inputs@);
    r
}

/// Whether `v` holds a string equal to `s`.
fn contains_string(v: &Vec<String>, s: &String) -> (r: bool)
    ensures
        r == views(v@).contains(s@),
{
    let mut i: usize = 0;
    while i < v.len()
        invariant
            i <= v@.len(),
            forall|j: int| 0 <= j < i ==> v@[j]@ != s@,
        decreases v@.len() - i,
    {
        if v[i] == *s {
            assert(views(v@)[i as int] == s@);
            return true;
        }
        i = i + 1;
    }
    assert(!views(v@).contains(s@)) by {
        if views(v@).contains(s@) {
            let j = choose|j: int| 0 <= j < views(v@).len() && views(v@)[j] == s@;
            assert(v@[j]@ == s@);
        }
    }
    false
}

/// Fails where two or more inputs share a stem, since outputs are named by
/// stem. The failure lists every shared stem once, in ascending order,
/// with the paths that have it, in input order.
pub fn validate_duplicate_input_names(inputs: &Vec<Utf8StemmedPathBuf>) -> (r: Result<(), DuplicateInputNames>)
    ensures
        r is Ok <==> forall|s: Seq<char>| !duplicated(inputs@, s),
        r matches Err(d) ==> reports_duplicates(inputs@, d.groups@),
{
    let mut dup: Vec<String> = Vec::new();
    let mut i: usize = 0;
    while i < inputs.len()
        invariant
            i <= inputs@.len(),
            views(dup@).no_duplicates(),
            forall|k: int| 0 <= k < dup@.len() ==> duplicated(inputs@, #[trigger] dup@[k]@),
            forall|j: int| 0 <= j < i && duplicated(inputs@, (#[trigger] inputs@[j]).spec_stem())
                ==> views(dup@).contains(inputs@[j].spec_stem()),
        decreases inputs@.len() - i,
    {
        let s = String::from_str(inputs[i].file_stem());
        let paths = collect_paths(inputs, &s);
        if paths.len() >= 2 && !contains_string(&dup, &s) {
            let ghost before = dup@;
            dup.push(s);
            proof {
                assert(views(dup@) =~= views(before).push(inputs@[i as int].spec_stem()));
                assert forall|j: int| 0 <= j < i + 1 && duplicated(inputs@, (#[trigger] inputs@[j]).spec_stem())
                    implies views(dup@).contains(inputs@[j].spec_stem()) by {
                    if j < i {
                        let k = choose|k: int| 0 <= k < views(before).len() && views(before)[k] == inputs@[j].spec_stem();
                        assert(views(dup@)[k] == views(before)[k]);
                    } else {
                        assert(views(dup@)[before.len() as int] == inputs@[j].spec_stem());
                    }
                }
                assert forall|a: int, b: int| 0 <= a < b < views(dup@).len() implies views(dup@)[a] != views(dup@)[b] by {
                    if b == before.len() {
                        assert(views(before)[a] == views(dup@)[a]);
                    } else {
                        assert(views(before)[a] == views(dup@)[a]);
                        assert(views(before)[b] == views(dup@)[b]);
                    }
                }
                assert(dup@[before.len() as int]@ == inputs@[i as int].spec_stem());
            }
        }
        i = i + 1;
    }
    if dup.len() == 0 {
        assert forall|s: Seq<char>| !duplicated(inputs@, s) by {
            if duplicated(inputs@, s) {
                lemma_stem_occurs(inputs@, s);
                let j = choose|j: int| 0 <= j < inputs@.len() && (#[trigger] inputs@[j]).spec_stem() == s;
            }
        }
        return Ok(());
    }
    let ghost unsorted = views(dup@);
    assert(duplicated(inputs@, dup@[0]@));
    let sorted = sorted_strings(dup);
    proof {
        unsorted.lemma_multiset_has_no_duplicates();
        assert forall|x: Seq<char>| views(sorted@).to_multiset().contains(x) implies views(sorted@).to_multiset().count(x) == 1 by {
            assert(unsorted.to_multiset().contains(x));
        }
        views(sorted@).lemma_multiset_has_no_duplicates_conv();
    }
    let mut groups: Vec<StemGroup> = Vec::new();
    let mut g: usize = 0;
    while g < sorted.len()
        invariant
            g <= sorted@.len(),
            groups@.len() == g,
            forall|k: int| 0 <= k < g ==> (#[trigger] groups@[k]).stem@ == sorted@[k]@,
            forall|k: int| 0 <= k < g
                ==> views((#[trigger] groups@[k]).paths@) == paths_with_stem(inputs@, groups@[k].stem@),
        decreases sorted@.len() - g,
    {
        let paths = collect_paths(inputs, &sorted[g]);
        groups.push(StemGroup { stem: sorted[g].clone(), paths });
        g = g + 1;
    }
    proof {
        let stems = group_stems(groups@);
        assert(stems =~= views(sorted@));
        assert forall|k: int| 0 <= k < stems.len() implies duplicated(inputs@, #[trigger] stems[k]) by {
            assert(views(sorted@)[k] == stems[k]);
            assert(views(sorted@).contains(stems[k]));
            vstd::seq_lib::to_multiset_contains(views(sorted@), stems[k]);
            vstd::seq_lib::to_multiset_contains(unsorted, stems[k]);
            assert(unsorted.contains(stems[k]));
            let m = choose|m: int| 0 <= m < unsorted.len() && unsorted[m] == stems[k];
            assert(dup@[m]@ == unsorted[m]);
        }
        assert forall|s: Seq<char>| duplicated(inputs@, s) implies stems.contains(s) by {
            lemma_stem_occurs(inputs@, s);
            let j = choose|j: int| 0 <= j < inputs@.len() && (#[trigger] inputs@[j]).spec_stem() == s;
            assert(unsorted.contains(s));
            vstd::seq_lib::to_multiset_contains(views(sorted@), s);
            vstd::seq_lib::to_multiset_contains(unsorted, s);
        }
        assert forall|a: int, b: int| 0 <= a <= b < stems.len() implies str_le(#[trigger] stems[a], #[trigger] stems[b]) by {
            assert(stems[a] == sorted@[a]@);
            assert(stems[b] == sorted@[b]@);
        }
    }
    Err(DuplicateInputNames { groups })
}

impl DuplicateInputNames {
    /// The report of the groups, one line each.
    pub fn message(&self) -> (r: String)
        ensures
            r@ == duplicates_text(self.groups@),
    {
        let mut lines: Vec<String> = Vec::new();
        let mut i: usize = 0;
        while i < self.groups.len()
            invariant
                i <= self.groups@.len(),
                views(lines@) == self.groups@.take(i as int).map_values(|g: StemGroup| group_line(g)),
            decreases self.groups@.len() - i,
        {
            let group = &self.groups[i];
            let mut line = String::from_str("- ");
            line.append(group.stem.as_str());
            line.append(" (");
            line.append(decimal_string(group.paths.len() as u64).as_str());
            line.append(" files): [");
            line.append(join_strings(&group.paths, ", ").as_str());
            line.append("]");
            let ghost before = lines@;
            lines.push(line);
            assert(views(lines@) =~= views(before).push(group_line(self.groups@[i as int])));
            assert(self.groups@.take(i + 1).map_values(|g: StemGroup| group_line(g))
                =~= self.groups@.take(i as int).map_values(|g: StemGroup| group_line(g)).push(group_line(self.groups@[i as int])));
            i = i + 1;
        }
        assert(self.groups@.take(self.groups@.len() as int) =~= self.groups@);
        let mut r = String::from_str("The following input files have the same name, but they must be unique.\n");
        r.append(join_strings(&lines, "\n").as_str());
        r
    }
}

} // verus!
