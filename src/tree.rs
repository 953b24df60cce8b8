use vstd::prelude::*;

use crate::item::opt_view;
use crate::text::same_text;

verus! {

/// A catalogue edge: an item's id and its parent's id, if any.
pub type Link = (String, Option<String>);

/// The item of `link` sits directly in the item with id `parent`.
pub open spec fn child_of(link: Link, parent: Seq<char>) -> bool {
    opt_view(link.1) == Some(parent)
}

pub open spec fn holds_id(ids: Seq<String>, id: Seq<char>) -> bool {
    exists|m: int| 0 <= m < ids.len() && #[trigger] ids[m]@ == id
}

/// Every link whose parent is in `ids` has its own id in `ids`.
pub open spec fn closed_under_children(links: Seq<Link>, ids: Seq<String>) -> bool {
    forall|j: int, k: int|
        0 <= j < links.len() && 0 <= k < ids.len() && child_of(#[trigger] links[j], #[trigger] ids[k]@)
            ==> holds_id(ids, links[j].0@)
}

/// Every id after the first is that of a child of an earlier one.
pub open spec fn grown_from_children(links: Seq<Link>, ids: Seq<String>) -> bool {
    forall|m: int|
        0 < m < ids.len() ==> exists|j: int, k: int|
            0 <= j < links.len() && 0 <= k < m && #[trigger] ids[m]@ == links[j].0@ && child_of(
                links[j],
                ids[k]@,
            )
}

/// `chain` walks from `root` down through `links`: each step is a link whose
/// parent is the previous step's id.
pub open spec fn descends(links: Seq<Link>, root: Seq<char>, chain: Seq<int>) -> bool {
    &&& forall|s: int| 0 <= s < chain.len() ==> 0 <= #[trigger] chain[s] < links.len()
    &&& chain.len() > 0 ==> child_of(links[chain[0]], root)
    &&& forall|s: int|
        0 < s < chain.len() ==> child_of(links[#[trigger] chain[s]], links[chain[s - 1]].0@)
}

/// A set of ids that holds `root` and is closed under children holds every
/// descendant of `root`, however deep.
pub proof fn lemma_closed_set_holds_descendants(
    links: Seq<Link>,
    ids: Seq<String>,
    root: Seq<char>,
    chain: Seq<int>,
)
    requires
        holds_id(ids, root),
        closed_under_children(links, ids),
        descends(links, root, chain),
        chain.len() > 0,
    ensures
        holds_id(ids, links[chain.last()].0@),
    decreases chain.len(),
{
    if chain.len() == 1 {
        let k = choose|k: int| 0 <= k < ids.len() && #[trigger] ids[k]@ == root;
        assert(child_of(links[chain[0]], ids[k]@));
    } else {
        let init = chain.drop_last();
        assert(descends(links, root, init)) by {
            assert forall|s: int| 0 < s < init.len() implies child_of(
                links[#[trigger] init[s]],
                links[init[s - 1]].0@,
            ) by {
                assert(init[s] == chain[s] && init[s - 1] == chain[s - 1]);
            }
        }
        lemma_closed_set_holds_descendants(links, ids, root, init);
        let parent = links[init.last()].0@;
        let k = choose|k: int| 0 <= k < ids.len() && #[trigger] ids[k]@ == parent;
        let last = chain.len() - 1;
        assert(child_of(links[chain[last]], links[chain[last - 1]].0@));
        assert(child_of(links[chain.last()], ids[k]@));
    }
}

pub open spec fn count_true(s: Seq<bool>) -> nat
    decreases s.len(),
{
    if s.len() == 0 {
        0
    } else {
        count_true(s.drop_last()) + if s.last() {
            1nat
        } else {
            0nat
        }
    }
}

proof fn lemma_count_true_bound(s: Seq<bool>)
    ensures
        count_true(s) <= s.len(),
    decreases s.len(),
{
    if s.len() > 0 {
        lemma_count_true_bound(s.drop_last());
    }
}

proof fn lemma_count_true_set(s: Seq<bool>, j: int)
    requires
        0 <= j < s.len(),
        !s[j],
    ensures
        count_true(s.update(j, true)) == count_true(s) + 1,
    decreases s.len(),
{
    let t = s.update(j, true);
    if j == s.len() - 1 {
        assert(t.drop_last() =~= s.drop_last());
    } else {
        assert(t.drop_last() =~= s.drop_last().update(j, true));
        lemma_count_true_set(s.drop_last(), j);
    }
}

/// Whether some entry of `ids` is `id`.
fn contains_id(ids: &Vec<String>, id: &str) -> (r: bool)
    ensures
        r == holds_id(ids@, id@),
{
    let mut m: usize = 0;
    while m < ids.len()
        invariant
            m <= ids@.len(),
            forall|k: int| 0 <= k < m ==> ids@[k]@ != id@,
        decreases ids@.len() - m,
    {
        if same_text(ids[m].as_str(), id) {
            return true;
        }
        m = m + 1;
    }
    false
}

/// No two entries of `ids` are the same id.
pub open spec fn distinct_ids(ids: Seq<String>) -> bool {
    forall|a: int, b: int| 0 <= a < b < ids.len() ==> #[trigger] ids[a]@ != #[trigger] ids[b]@
}

/// The ids of `root` and of every item below it, root first, each once, each
/// found by following `links` from parent to child.
pub fn collect_descendants(root: &str, links: &Vec<Link>) -> (r: Vec<String>)
    ensures
        r@.len() >= 1,
        r@[0]@ == root@,
        closed_under_children(links@, r@),
        grown_from_children(links@, r@),
        distinct_ids(r@),
{
    let n = links.len();
    let mut taken: Vec<bool> = Vec::new();
    while taken.len() < n
        invariant
            taken@.len() <= n,
            forall|j: int| 0 <= j < taken@.len() ==> !#[trigger] taken@[j],
        decreases n - taken@.len(),
    {
        taken.push(false);
    }
    proof {
        assert(count_true(taken@) == 0) by {
            let s = taken@;
            assert(forall|j: int| 0 <= j < s.len() ==> !s[j]);
            lemma_count_false_zero(s);
        }
    }
    let mut ids: Vec<String> = Vec::new();
    ids.push(root.to_owned());
    let mut i: usize = 0;
    while i < ids.len()
        invariant
            n == links@.len(),
            taken@.len() == n,
            ids@.len() <= 1 + count_true(taken@),
            ids@.len() >= 1,
            ids@[0]@ == root@,
            i <= ids@.len(),
            distinct_ids(ids@),
            forall|j: int| 0 <= j < n && #[trigger] taken@[j] ==> holds_id(ids@, links@[j].0@),
            forall|j: int, k: int|
                0 <= j < n && 0 <= k < i && child_of(#[trigger] links@[j], #[trigger] ids@[k]@)
                    ==> taken@[j],
            grown_from_children(links@, ids@),
        decreases n + 1 - i,
    {
        let ghost ids_before = ids@;
        let ghost taken_before = taken@;
        let mut j: usize = 0;
        while j < n
            invariant
                n == links@.len(),
                taken@.len() == n,
                ids@.len() <= 1 + count_true(taken@),
                distinct_ids(ids@),
                i < ids_before.len(),
                ids_before.len() <= ids@.len(),
                forall|m: int| 0 <= m < ids_before.len() ==> #[trigger] ids@[m] == ids_before[m],
                forall|b: int| 0 <= b < n && #[trigger] taken_before[b] ==> taken@[b],
                forall|b: int| 0 <= b < n && #[trigger] taken@[b] ==> holds_id(ids@, links@[b].0@),
                forall|b: int, k: int|
                    0 <= b < n && 0 <= k < i && child_of(#[trigger] links@[b], #[trigger] ids_before[k]@)
                        ==> taken_before[b],
                forall|b: int|
                    0 <= b < j && child_of(#[trigger] links@[b], ids_before[i as int]@) ==> taken@[b],
                j <= n,
                grown_from_children(links@, ids@),
            decreases n - j,
        {
            if !taken[j] {
                let is_child = match &links[j].1 {
                    Some(p) => same_text(p.as_str(), ids[i].as_str()),
                    None => false,
                };
                if is_child && contains_id(&ids, links[j].0.as_str()) {
                    proof {
                        lemma_count_true_set(taken@, j as int);
                    }
                    taken.set(j, true);
                } else if is_child {
                    proof {
                        lemma_count_true_set(taken@, j as int);
                        lemma_count_true_bound(taken@.update(j as int, true));
                    }
                    let ghost ids_mid = ids@;
                    let id = links[j].0.clone();
                    taken.set(j, true);
                    ids.push(id);
                    proof {
                        assert(ids@[ids@.len() - 1]@ == links@[j as int].0@);
                        assert forall|b: int| 0 <= b < n && #[trigger] taken@[b] implies holds_id(
                            ids@,
                            links@[b].0@,
                        ) by {
                            if b != j {
                                let m = choose|m: int|
                                    0 <= m < ids_mid.len() && #[trigger] ids_mid[m]@ == links@[b].0@;
                                assert(ids@[m] == ids_mid[m]);
                            } else {
                                assert(ids@[ids@.len() - 1]@ == links@[b].0@);
                            }
                        }
                        assert forall|m: int| 0 < m < ids@.len() implies exists|a: int, k: int|
                            0 <= a < links@.len() && 0 <= k < m && #[trigger] ids@[m]@ == links@[a].0@
                                && child_of(links@[a], ids@[k]@) by {
                            if m < ids_mid.len() {
                                assert(ids@[m] == ids_mid[m]);
                                let (a, k) = choose|a: int, k: int|
                                    0 <= a < links@.len() && 0 <= k < m && #[trigger] ids_mid[m]@
                                        == links@[a].0@ && child_of(links@[a], ids_mid[k]@);
                                assert(ids@[k] == ids_mid[k]);
                            } else {
                                assert(ids@[i as int] == ids_before[i as int]);
                                assert(child_of(links@[j as int], ids@[i as int]@));
                            }
                        }
                    }
                }
            }
            j = j + 1;
        }
        proof {
            assert forall|b: int, k: int|
                0 <= b < n && 0 <= k < i + 1 && child_of(#[trigger] links@[b], #[trigger] ids@[k]@)
                    implies taken@[b] by {
                assert(ids@[k] == ids_before[k]);
            }
        }
        proof {
            lemma_count_true_bound(taken@);
        }
        i = i + 1;
    }
    proof {
        assert forall|j: int, k: int|
            0 <= j < links@.len() && 0 <= k < ids@.len() && child_of(
                #[trigger] links@[j],
                #[trigger] ids@[k]@,
            ) implies holds_id(ids@, links@[j].0@) by {
        }
    }
    ids
}

proof fn lemma_count_false_zero(s: Seq<bool>)
    requires
        forall|j: int| 0 <= j < s.len() ==> !s[j],
    ensures
        count_true(s) == 0,
    decreases s.len(),
{
    if s.len() > 0 {
        lemma_count_false_zero(s.drop_last());
    }
}

} // verus!
