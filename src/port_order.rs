//! The order in which a member's ports are listed: natural order of their names.
use std::cmp::Ordering;
use vstd::prelude::*;
use crate::node::Port;

verus! {

broadcast use vstd::seq_lib::group_to_multiset_ensures;

/// How `natord::compare` orders two names.
pub uninterp spec fn natural_cmp(a: Seq<char>, b: Seq<char>) -> Ordering;

/// Relies on natord::compare: the natural order of two strings, which depends on their
/// characters alone.
#[verifier::external_body]
fn natural_compare(a: &str, b: &str) -> (r: Ordering)
    ensures
        r == natural_cmp(a@, b@),
{
    natord::compare(a, b)
}

/// The name of `p` comes before the name of `q` in natural order.
pub open spec fn goes_before(p: &Port, q: &Port) -> bool {
    natural_cmp(p.name@, q.name@) == Ordering::Less
}

/// `sorted` with `p` put before the first port whose name `p`'s name comes before.
pub open spec fn insert_by_name<'a>(sorted: Seq<&'a Port>, p: &'a Port) -> Seq<&'a Port>
    decreases sorted.len(),
{
    if sorted.len() == 0 {
        seq![p]
    } else if goes_before(p, sorted[0]) {
        seq![p] + sorted
    } else {
        seq![sorted[0]] + insert_by_name(sorted.drop_first(), p)
    }
}

/// The ports inserted one after another, each by `insert_by_name`.
pub open spec fn sorted_by_name<'a>(ports: Seq<&'a Port>) -> Seq<&'a Port>
    decreases ports.len(),
{
    if ports.len() == 0 {
        Seq::empty()
    } else {
        insert_by_name(sorted_by_name(ports.drop_last()), ports.last())
    }
}

proof fn lemma_insert_position<'a>(sorted: Seq<&'a Port>, p: &'a Port, j: int)
    requires
        0 <= j <= sorted.len(),
        forall|t: int| 0 <= t < j ==> !goes_before(p, #[trigger] sorted[t]),
        j < sorted.len() ==> goes_before(p, sorted[j]),
    ensures
        insert_by_name(sorted, p) == sorted.insert(j, p),
    decreases sorted.len(),
{
    if sorted.len() == 0 {
        assert(seq![p] =~= sorted.insert(j, p));
    } else if j == 0 {
        assert(seq![p] + sorted =~= sorted.insert(j, p));
    } else {
        let rest = sorted.drop_first();
        assert forall|t: int| 0 <= t < j - 1 implies !goes_before(p, #[trigger] rest[t]) by {
            assert(rest[t] == sorted[t + 1]);
        }
        if j < sorted.len() {
            assert(rest[j - 1] == sorted[j]);
        }
        assert(!goes_before(p, sorted[0]));
        lemma_insert_position(rest, p, j - 1);
        assert(seq![sorted[0]] + rest.insert(j - 1, p) =~= sorted.insert(j, p));
    }
}

proof fn lemma_insert_keeps_ports<'a>(sorted: Seq<&'a Port>, p: &'a Port)
    ensures
        insert_by_name(sorted, p).to_multiset() == sorted.to_multiset().insert(p),
    decreases sorted.len(),
{
    if sorted.len() == 0 {
        assert(seq![p] =~= sorted.push(p));
    } else if goes_before(p, sorted[0]) {
        let s = seq![p] + sorted;
        assert(s.remove(0) =~= sorted);
        assert(s.to_multiset().count(p) > 0) by {
            assert(s[0] == p);
            assert(s.contains(p));
        }
        assert(s.to_multiset() =~= sorted.to_multiset().insert(p));
    } else {
        let rest = sorted.drop_first();
        lemma_insert_keeps_ports(rest, p);
        let tail = insert_by_name(rest, p);
        let s = seq![sorted[0]] + tail;
        assert(s.remove(0) =~= tail);
        assert(s.to_multiset().count(sorted[0]) > 0) by {
            assert(s[0] == sorted[0]);
            assert(s.contains(sorted[0]));
        }
        assert(sorted.remove(0) =~= rest);
        assert(sorted.to_multiset().count(sorted[0]) > 0) by {
            assert(sorted.contains(sorted[0]));
        }
        assert(s.to_multiset() =~= tail.to_multiset().insert(sorted[0]));
        assert(sorted.to_multiset() =~= rest.to_multiset().insert(sorted[0]));
    }
}

/// The natural-order listing holds exactly the ports it was given.
pub proof fn lemma_natural_order_keeps_ports<'a>(ports: Seq<&'a Port>)
    ensures
        sorted_by_name(ports).to_multiset() == ports.to_multiset(),
    decreases ports.len(),
{
    if ports.len() > 0 {
        let init = ports.drop_last();
        lemma_natural_order_keeps_ports(init);
        lemma_insert_keeps_ports(sorted_by_name(init), ports.last());
        assert(init.push(ports.last()) =~= ports);
    }
}

/// Lists `ports` by name in natural order; ports whose names tie keep their order.
pub fn ports_in_natural_order<'a>(ports: &Vec<&'a Port>) -> (r: Vec<&'a Port>)
    ensures
        r@ == sorted_by_name(ports@),
{
    let mut r: Vec<&'a Port> = Vec::new();
    let mut i: usize = 0;
    while i < ports.len()
        invariant
            i <= ports@.len(),
            r@ == sorted_by_name(ports@.take(i as int)),
        decreases ports@.len() - i,
    {
        let p = ports[i];
        let mut j: usize = 0;
        let mut found = false;
        while j < r.len() && !found
            invariant
                j <= r@.len(),
                forall|t: int| 0 <= t < j ==> !goes_before(p, #[trigger] r@[t]),
                found ==> j < r@.len() && goes_before(p, r@[j as int]),
            decreases r@.len() - j + if found { 0int } else { 1int },
        {
            match natural_compare(p.name.as_str(), r[j].name.as_str()) {
                Ordering::Less => {
                    found = true;
                },
                _ => {
                    j = j + 1;
                },
            }
        }
        let ghost before = r@;
        r.insert(j, p);
        proof {
            lemma_insert_position(before, p, j as int);
            assert(ports@.take(i + 1).drop_last() =~= ports@.take(i as int));
            assert(ports@.take(i + 1).last() == p);
        }
        i = i + 1;
    }
    assert(ports@.take(ports@.len() as int) =~= ports@);
    r
}

} // verus!
