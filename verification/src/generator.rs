//! Which unit generators run, and in what order.

use vstd::prelude::*;

use crate::journal::catalog::{bytes_less, bytes_lt, lemma_bytes_total, lemma_bytes_transitive};
use crate::paths;

verus! {

/// Where the manager writes what generators make, by default.
pub const DEFAULT_OUTPUT_ROOT: &'static str = "/run/rustd";

/// Where generators are looked for by default, first come first.
pub open spec fn default_search() -> Seq<Seq<char>> {
    seq![
        "/etc/rustd/system-generators"@,
        "/run/rustd/system-generators"@,
        "/usr/local/lib/rustd/system-generators"@,
        "/usr/lib/rustd/system-generators"@,
    ]
}

/// Where generators are looked for by default, first come first.
pub fn system_generator_dirs() -> (r: Vec<String>)
    ensures
        crate::text::views(r@) == default_search(),
{
    let mut dirs: Vec<String> = Vec::new();
    dirs.push("/etc/rustd/system-generators".to_owned());
    dirs.push("/run/rustd/system-generators".to_owned());
    dirs.push("/usr/local/lib/rustd/system-generators".to_owned());
    dirs.push("/usr/lib/rustd/system-generators".to_owned());
    assert(crate::text::views(dirs@) =~= default_search());
    dirs
}

/// The three directories that a generator writes to: early, normal, late.
pub fn output_directories(root: &str) -> (r: (String, String, String))
    ensures
        r.0@ == paths::joined(root@, "generator.early"@),
        r.1@ == paths::joined(root@, "generator"@),
        r.2@ == paths::joined(root@, "generator.late"@),
{
    (paths::join(root, "generator.early"), paths::join(root, "generator"), paths::join(root, "generator.late"))
}

/// A directory entry that may be a generator.
#[derive(Debug)]
pub struct Candidate {
    /// File name.
    pub name: Vec<u8>,
    pub is_file: bool,
    /// Permission bits.
    pub mode: u32,
}

impl Candidate {
    /// Whether the entry can be run: a file that anyone may execute.
    pub open spec fn runs(self) -> bool {
        self.is_file && self.mode & 0o111 != 0
    }
}

/// Whether the entry at `i` is what its name stands for: it can be run, and no
/// earlier entry of the same name can.
pub open spec fn visible(candidates: Seq<Candidate>, i: int) -> bool {
    &&& 0 <= i < candidates.len()
    &&& candidates[i].runs()
    &&& forall|j: int| 0 <= j < i && (#[trigger] candidates[j]).runs() ==> candidates[j].name@ != candidates[i].name@
}

/// Whether a list of entries is in strictly ascending order of their names.
pub open spec fn ascending(candidates: Seq<Candidate>, order: Seq<usize>) -> bool {
    forall|a: int, b: int|
        0 <= a < b < order.len() ==> bytes_lt(
            candidates[#[trigger] order[a] as int].name@,
            candidates[#[trigger] order[b] as int].name@,
        )
}

/// Which entries run, in order of their names. Entries come in the order of
/// the search, so that an earlier directory hides a later one.
pub fn visible_generators(candidates: &Vec<Candidate>) -> (r: Vec<usize>)
    ensures
        forall|k: int| 0 <= k < r@.len() ==> visible(candidates@, #[trigger] r@[k] as int),
        forall|i: int| #[trigger] visible(candidates@, i) ==> r@.contains(i as usize),
        ascending(candidates@, r@),
{
    let mut order: Vec<usize> = Vec::new();
    let mut i: usize = 0;
    while i < candidates.len()
        invariant
            i <= candidates@.len(),
            forall|k: int| 0 <= k < order@.len() ==> visible(candidates@, #[trigger] order@[k] as int) && order@[k] < i,
            forall|j: int| #[trigger] visible(candidates@, j) && j < i ==> order@.contains(j as usize),
            ascending(candidates@, order@),
        decreases candidates@.len() - i,
    {
        let candidate = &candidates[i];
        if candidate.is_file && candidate.mode & 0o111 != 0 {
            place(candidates, &mut order, i);
        }
        i += 1;
    }
    order
}

/// Put a runnable entry in its place, unless its name is taken.
fn place(candidates: &Vec<Candidate>, order: &mut Vec<usize>, i: usize)
    requires
        i < candidates@.len(),
        candidates@[i as int].runs(),
        forall|k: int| 0 <= k < old(order)@.len() ==> visible(candidates@, #[trigger] old(order)@[k] as int)
            && old(order)@[k] < i,
        forall|j: int| #[trigger] visible(candidates@, j) && j < i ==> old(order)@.contains(j as usize),
        ascending(candidates@, old(order)@),
    ensures
        forall|k: int| 0 <= k < final(order)@.len() ==> visible(candidates@, #[trigger] final(order)@[k] as int)
            && final(order)@[k] <= i,
        forall|j: int| #[trigger] visible(candidates@, j) && j <= i ==> final(order)@.contains(j as usize),
        ascending(candidates@, final(order)@),
{
    let ghost before = order@;
    let name = candidates[i].name.as_slice();
    let mut at: usize = 0;
    while at < order.len() && bytes_less(candidates[order[at]].name.as_slice(), name)
        invariant
            i < candidates@.len(),
            order@ == before,
            name@ == candidates@[i as int].name@,
            at <= before.len(),
            forall|k: int| 0 <= k < before.len() ==> visible(candidates@, #[trigger] before[k] as int) && before[k] < i,
            forall|k: int| 0 <= k < at ==> bytes_lt(candidates@[#[trigger] before[k] as int].name@, name@),
        decreases before.len() - at,
    {
        at += 1;
    }
    if at < order.len() && !bytes_less(name, candidates[order[at]].name.as_slice()) {
        proof {
            let other = before[at as int] as int;
            lemma_bytes_total(candidates@[other].name@, name@);
            assert(candidates@[other].name@ == name@);
            assert(candidates@[other].runs());
            assert(!visible(candidates@, i as int));
            assert forall|j: int| #[trigger] visible(candidates@, j) && j <= i implies before.contains(j as usize) by {
                assert(j != i);
            }
        }
        return;
    }
    order.insert(at, i);
    proof {
        let after = order@;
        assert(after =~= before.insert(at as int, i));
        assert forall|k: int| at <= k < before.len() implies bytes_lt(name@, candidates@[#[trigger] before[k] as int].name@) by {
            if k > at {
                assert(bytes_lt(candidates@[before[at as int] as int].name@, candidates@[before[k] as int].name@));
                lemma_bytes_transitive(
                    name@,
                    candidates@[before[at as int] as int].name@,
                    candidates@[before[k] as int].name@,
                );
            }
        }
        assert(visible(candidates@, i as int)) by {
            assert forall|j: int| 0 <= j < i && (#[trigger] candidates@[j]).runs() implies candidates@[j].name@
                != candidates@[i as int].name@ by {
                if candidates@[j].name@ == name@ {
                    lemma_first_runnable(candidates@, j);
                    let first = choose|first: int|
                        0 <= first <= j && #[trigger] visible(candidates@, first) && candidates@[first].name@
                            == candidates@[j].name@;
                    assert(before.contains(first as usize));
                    let k = choose|k: int| 0 <= k < before.len() && before[k] == first as usize;
                    lemma_bytes_total(candidates@[before[k] as int].name@, name@);
                    lemma_bytes_irreflexive(name@);
                }
            }
        }
        assert forall|k: int| 0 <= k < after.len() implies visible(candidates@, #[trigger] after[k] as int) && after[k]
            <= i by {
            if k < at {
                assert(after[k] == before[k]);
            } else if k > at {
                assert(after[k] == before[k - 1]);
            }
        }
        assert forall|j: int| #[trigger] visible(candidates@, j) && j <= i implies after.contains(j as usize) by {
            if j == i {
                assert(after[at as int] == i);
            } else {
                let k = choose|k: int| 0 <= k < before.len() && before[k] == j as usize;
                if k < at {
                    assert(after[k] == before[k]);
                } else {
                    assert(after[k + 1] == before[k]);
                }
            }
        }
        assert forall|a: int, b: int| 0 <= a < b < after.len() implies bytes_lt(
            candidates@[#[trigger] after[a] as int].name@,
            candidates@[#[trigger] after[b] as int].name@,
        ) by {
            let x = if a < at {
                a
            } else {
                a - 1
            };
            let y = if b < at {
                b
            } else {
                b - 1
            };
            if a == at {
                assert(after[b] == before[y]);
            } else if b == at {
                assert(after[a] == before[x]);
            } else {
                assert(after[a] == before[x]);
                assert(after[b] == before[y]);
            }
        }
    }
}

proof fn lemma_bytes_irreflexive(a: Seq<u8>)
    ensures
        !bytes_lt(a, a),
    decreases a.len(),
{
    if a.len() > 0 {
        lemma_bytes_irreflexive(a.drop_first());
    }
}

/// Where an entry can be run, the first of its name that can be is visible.
proof fn lemma_first_runnable(candidates: Seq<Candidate>, j: int)
    requires
        0 <= j < candidates.len(),
        candidates[j].runs(),
    ensures
        exists|first: int|
            0 <= first <= j && #[trigger] visible(candidates, first) && candidates[first].name@ == candidates[j].name@,
    decreases j,
{
    if visible(candidates, j) {
    } else {
        let k = choose|k: int| 0 <= k < j && (#[trigger] candidates[k]).runs() && candidates[k].name@ == candidates[j].name@;
        lemma_first_runnable(candidates, k);
    }
}

/// An entry that an earlier directory provides hides every later one of the
/// same name.
pub proof fn law_earlier_directories_hide_later_ones(candidates: Seq<Candidate>, i: int, j: int)
    requires
        0 <= i < j < candidates.len(),
        candidates[i].runs(),
        candidates[i].name@ == candidates[j].name@,
    ensures
        !visible(candidates, j),
{
    assert(candidates[i].runs());
}

/// Where generators are looked for, in this order.
pub proof fn law_where_generators_are_looked_for()
    ensures
        default_search().len() == 4,
        default_search()[0] == "/etc/rustd/system-generators"@,
        default_search()[1] == "/run/rustd/system-generators"@,
        default_search()[2] == "/usr/local/lib/rustd/system-generators"@,
        default_search()[3] == "/usr/lib/rustd/system-generators"@,
        DEFAULT_OUTPUT_ROOT@ == "/run/rustd"@,
{
}

/// A generator runs where it is a file that someone may execute. Of several
/// with one name only the first that runs is visible.
pub proof fn law_which_generators_run(candidates: Seq<Candidate>, i: int, j: int)
    requires
        0 <= i < candidates.len(),
        0 <= j < candidates.len(),
    ensures
        candidates[i].runs() <==> candidates[i].is_file && (candidates[i].mode & 1 != 0 || candidates[i].mode & 8 != 0 || candidates[i].mode & 64 != 0),
        visible(candidates, i) ==> candidates[i].runs(),
        visible(candidates, i) && visible(candidates, j) && candidates[i].name@ == candidates[j].name@ ==> i == j,
        candidates[j].runs() ==> exists|k: int| 0 <= k <= j && #[trigger] visible(candidates, k) && candidates[k].name@ == candidates[j].name@,
    decreases j,
{
    let mode = candidates[i].mode;
    assert(mode & 0o111 != 0 <==> (mode & 1 != 0 || mode & 8 != 0 || mode & 64 != 0)) by (bit_vector);
    if visible(candidates, i) && visible(candidates, j) && candidates[i].name@ == candidates[j].name@ {
        if i < j {
            assert(candidates[i].runs());
        } else if j < i {
            assert(candidates[j].runs());
        }
    }
    if candidates[j].runs() && !visible(candidates, j) {
        let k = choose|k: int| 0 <= k < j && (#[trigger] candidates[k]).runs() && candidates[k].name@ == candidates[j].name@;
        law_which_generators_run(candidates, i, k);
        let first = choose|first: int| 0 <= first <= k && #[trigger] visible(candidates, first) && candidates[first].name@ == candidates[k].name@;
        assert(visible(candidates, first));
    }
}

/// What runs in the order of the names.
pub proof fn law_generators_run_in_the_order_of_their_names(candidates: Seq<Candidate>, order: Seq<usize>, a: int, b: int)
    requires
        ascending(candidates, order),
        0 <= a < b < order.len(),
    ensures
        bytes_lt(candidates[order[a] as int].name@, candidates[order[b] as int].name@),
{
}

} // verus!
