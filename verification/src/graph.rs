//! Graphs of things that wait for one another, and the order that lets each of
//! them go after what it waits for.
use vstd::prelude::*;

verus! {

/// A graph: for each node the nodes it waits for.
pub open spec fn edges(graph: Seq<Vec<usize>>) -> Seq<Seq<usize>> {
    graph.map_values(|list: Vec<usize>| list@)
}

/// Every node waits for nodes of the graph only.
pub open spec fn closed(graph: Seq<Seq<usize>>) -> bool {
    forall|i: int, j: int|
        0 <= i < graph.len() && 0 <= j < graph[i].len() ==> #[trigger] graph[i][j] < graph.len()
}

/// The ranks are such that each node stands above all that it waits for.
pub open spec fn ranked(graph: Seq<Seq<usize>>, rank: spec_fn(int) -> nat) -> bool {
    forall|i: int, j: int|
        0 <= i < graph.len() && 0 <= j < graph[i].len() ==> rank(#[trigger] graph[i][j] as int)
            < rank(i)
}

/// The nodes can be ranked, so none waits for itself, directly or through others.
pub open spec fn orderable(graph: Seq<Seq<usize>>) -> bool {
    exists|rank: spec_fn(int) -> nat| ranked(graph, rank)
}

/// Each node of the list comes after all that it waits for.
pub open spec fn in_order(graph: Seq<Seq<usize>>, order: Seq<usize>) -> bool {
    forall|p: int, j: int|
        0 <= p < order.len() && 0 <= j < graph[order[p] as int].len() ==> order.take(p).contains(
            #[trigger] graph[order[p] as int][j],
        )
}

/// A node waits for one that is not in the list.
pub open spec fn is_held_up(graph: Seq<Seq<usize>>, order: Seq<usize>, node: int) -> bool {
    exists|j: int| 0 <= j < graph[node].len() && !order.contains(#[trigger] graph[node][j])
}

/// How often a node stands in a list.
pub open spec fn occurrences(list: Seq<usize>, node: usize) -> nat
    decreases list.len(),
{
    if list.len() == 0 {
        0
    } else {
        occurrences(list.drop_last(), node) + if list.last() == node {
            1nat
        } else {
            0nat
        }
    }
}

/// How many of the listed nodes are still to be done.
pub open spec fn waiting(list: Seq<usize>, done: Seq<usize>) -> nat
    decreases list.len(),
{
    if list.len() == 0 {
        0
    } else {
        waiting(list.drop_last(), done) + if done.contains(list.last()) {
            0nat
        } else {
            1nat
        }
    }
}

proof fn lemma_waiting_done(list: Seq<usize>, done: Seq<usize>, node: usize)
    requires
        !done.contains(node),
    ensures
        waiting(list, done) == waiting(list, done.push(node)) + occurrences(list, node),
    decreases list.len(),
{
    if list.len() > 0 {
        lemma_waiting_done(list.drop_last(), done, node);
        let now = done.push(node);
        assert(now.contains(list.last()) == (done.contains(list.last()) || list.last() == node))
            by {
            if done.contains(list.last()) {
                let i = choose|i: int| 0 <= i < done.len() && done[i] == list.last();
                assert(now[i] == list.last());
            }
            if list.last() == node {
                assert(now[done.len() as int] == node);
            }
        }
    }
}

proof fn lemma_waiting_none(list: Seq<usize>, done: Seq<usize>)
    requires
        waiting(list, done) == 0,
    ensures
        forall|j: int| 0 <= j < list.len() ==> done.contains(#[trigger] list[j]),
    decreases list.len(),
{
    if list.len() > 0 {
        lemma_waiting_none(list.drop_last(), done);
        assert forall|j: int| 0 <= j < list.len() implies done.contains(#[trigger] list[j]) by {
            if j < list.len() - 1 {
                assert(list.drop_last()[j] == list[j]);
            }
        }
    }
}

proof fn lemma_waiting_some(list: Seq<usize>, done: Seq<usize>)
    requires
        waiting(list, done) > 0,
    ensures
        exists|j: int| 0 <= j < list.len() && !done.contains(#[trigger] list[j]),
    decreases list.len(),
{
    if !done.contains(list.last()) {
        assert(list[list.len() - 1] == list.last());
    } else {
        lemma_waiting_some(list.drop_last(), done);
        let j = choose|j: int|
            0 <= j < list.drop_last().len() && !done.contains(#[trigger] list.drop_last()[j]);
        assert(list[j] == list.drop_last()[j]);
    }
}

proof fn lemma_waiting_all(list: Seq<usize>)
    ensures
        waiting(list, Seq::<usize>::empty()) == list.len(),
    decreases list.len(),
{
    if list.len() > 0 {
        lemma_waiting_all(list.drop_last());
    }
}

proof fn lemma_occurrences_take(list: Seq<usize>, node: usize, m: int)
    requires
        0 <= m <= list.len(),
    ensures
        occurrences(list.take(m), node) <= occurrences(list, node),
    decreases list.len(),
{
    if m < list.len() {
        lemma_occurrences_take(list.drop_last(), node, m);
        assert(list.drop_last().take(m) =~= list.take(m));
    } else {
        assert(list.take(m) =~= list);
    }
}

/// Nodes that all wait for one another's like cannot be ranked.
proof fn lemma_stuck(graph: Seq<Seq<usize>>, placed: Seq<usize>, rank: spec_fn(int) -> nat, i: int)
    requires
        closed(graph),
        0 <= i < graph.len(),
        !placed.contains(i as usize),
        graph.len() <= usize::MAX,
        forall|k: int|
            0 <= k < graph.len() && !placed.contains(k as usize) ==> waiting(
                #[trigger] graph[k],
                placed,
            ) > 0,
    ensures
        !ranked(graph, rank),
    decreases rank(i),
{
    if ranked(graph, rank) {
        assert(waiting(graph[i], placed) > 0);
        lemma_waiting_some(graph[i], placed);
        let j = choose|j: int| 0 <= j < graph[i].len() && !placed.contains(#[trigger] graph[i][j]);
        assert(rank(graph[i][j] as int) < rank(i));
        lemma_stuck(graph, placed, rank, graph[i][j] as int);
    }
}

/// A list without repetition that is as long as the graph holds every node.
proof fn lemma_complete(order: Seq<usize>, count: nat, node: usize)
    requires
        order.no_duplicates(),
        order.len() == count,
        forall|p: int| 0 <= p < order.len() ==> #[trigger] order[p] < count,
        node < count,
    ensures
        order.contains(node),
{
    let all = vstd::set_lib::set_int_range(0, count as int);
    let held = order.map_values(|n: usize| n as int);
    vstd::set_lib::lemma_int_range(0, count as int);
    assert(held.no_duplicates());
    held.unique_seq_to_set();
    assert forall|n: int| held.to_set().contains(n) implies all.contains(n) by {
        let p = choose|p: int| 0 <= p < held.len() && held[p] == n;
        assert(order[p] == n);
    }
    vstd::set_lib::lemma_subset_equality(held.to_set(), all);
    assert(all.contains(node as int));
    assert(held.contains(node as int));
    let p = choose|p: int| 0 <= p < held.len() && held[p] == node as int;
    assert(order[p] == node);
}

/// For each node the nodes that wait for it.
fn dependents_of(graph: &Vec<Vec<usize>>) -> (dependents: Vec<Vec<usize>>)
    requires
        closed(edges(graph@)),
    ensures
        dependents@.len() == graph@.len(),
        forall|v: int, c: int|
            0 <= v < graph@.len() && 0 <= c < graph@.len() ==> #[trigger] occurrences(
                dependents@[v]@,
                c as usize,
            ) == occurrences(graph@[c]@, v as usize),
        forall|v: int, m: int|
            0 <= v < graph@.len() && 0 <= m < dependents@[v]@.len() ==> #[trigger] dependents@[v]@[m]
                < graph@.len(),
{
    let mut dependents: Vec<Vec<usize>> = Vec::new();
    let mut i: usize = 0;
    while i < graph.len()
        invariant
            i <= graph.len(),
            dependents@.len() == i,
            forall|v: int| 0 <= v < i ==> (#[trigger] dependents@[v])@ == Seq::<usize>::empty(),
        decreases graph.len() - i,
    {
        dependents.push(Vec::new());
        i += 1;
    }
    let mut c: usize = 0;
    while c < graph.len()
        invariant
            c <= graph.len(),
            closed(edges(graph@)),
            dependents@.len() == graph@.len(),
            forall|v: int, k: int|
                0 <= v < graph@.len() && 0 <= k < graph@.len() ==> #[trigger] occurrences(
                    dependents@[v]@,
                    k as usize,
                ) == if k < c {
                    occurrences(graph@[k]@, v as usize)
                } else {
                    0
                },
            forall|v: int, m: int|
                0 <= v < graph@.len() && 0 <= m < dependents@[v]@.len()
                    ==> #[trigger] dependents@[v]@[m] < graph@.len(),
        decreases graph.len() - c,
    {
        let mut j: usize = 0;
        assert(graph@[c as int]@.take(0) =~= Seq::<usize>::empty());
        while j < graph[c].len()
            invariant
                c < graph.len(),
                j <= graph@[c as int]@.len(),
                closed(edges(graph@)),
                dependents@.len() == graph@.len(),
                forall|v: int, k: int|
                    0 <= v < graph@.len() && 0 <= k < graph@.len() ==> #[trigger] occurrences(
                        dependents@[v]@,
                        k as usize,
                    ) == if k < c {
                        occurrences(graph@[k]@, v as usize)
                    } else if k == c {
                        occurrences(graph@[c as int]@.take(j as int), v as usize)
                    } else {
                        0
                    },
                forall|v: int, m: int|
                    0 <= v < graph@.len() && 0 <= m < dependents@[v]@.len()
                        ==> #[trigger] dependents@[v]@[m] < graph@.len(),
            decreases graph@[c as int]@.len() - j,
        {
            let v = graph[c][j];
            proof {
                assert(edges(graph@)[c as int][j as int] < edges(graph@).len());
            }
            let ghost before = dependents@;
            let mut list: Vec<usize> = Vec::new();
            std::mem::swap(&mut list, &mut dependents[v]);
            let ghost old_list = list@;
            list.push(c);
            dependents[v] = list;
            proof {
                let now = graph@[c as int]@.take(j + 1);
                assert(now.drop_last() =~= graph@[c as int]@.take(j as int));
                assert(now.last() == v);
                assert(dependents@[v as int]@ =~= before[v as int]@.push(c));
                assert(dependents@[v as int]@.drop_last() =~= before[v as int]@);
                assert forall|u: int, k: int|
                    0 <= u < graph@.len() && 0 <= k < graph@.len() implies #[trigger] occurrences(
                    dependents@[u]@,
                    k as usize,
                ) == if k < c {
                    occurrences(graph@[k]@, u as usize)
                } else if k == c {
                    occurrences(now, u as usize)
                } else {
                    0
                } by {
                    assert(occurrences(before[u]@, k as usize) == if k < c {
                        occurrences(graph@[k]@, u as usize)
                    } else if k == c {
                        occurrences(graph@[c as int]@.take(j as int), u as usize)
                    } else {
                        0
                    });
                    if u != v {
                        assert(dependents@[u] == before[u]);
                    }
                }
            }
            j += 1;
        }
        assert(graph@[c as int]@.take(j as int) =~= graph@[c as int]@);
        c += 1;
    }
    dependents
}

/// Orders the nodes of a graph so that each comes after all that it waits for, as
/// far as that can be done: a node that waits for itself, directly or through
/// others, is left out, and so is one that waits for a node that is.
pub fn topological_order(graph: &Vec<Vec<usize>>) -> (order: Vec<usize>)
    requires
        closed(edges(graph@)),
    ensures
        order@.no_duplicates(),
        forall|p: int| 0 <= p < order@.len() ==> #[trigger] order@[p] < graph@.len(),
        in_order(edges(graph@), order@),
        order@.len() <= graph@.len(),
        order@.len() == graph@.len() <==> orderable(edges(graph@)),
        forall|k: int|
            0 <= k < graph@.len() && !order@.contains(k as usize) ==> #[trigger] is_held_up(
                edges(graph@),
                order@,
                k,
            ),
{
    let dependents = dependents_of(graph);
    let ghost all = edges(graph@);
    let count = graph.len();
    let mut remaining: Vec<usize> = Vec::new();
    let mut order: Vec<usize> = Vec::new();
    let mut i: usize = 0;
    let ghost nothing = Seq::<usize>::empty();
    while i < count
        invariant
            i <= count,
            count == graph@.len(),
            all == edges(graph@),
            nothing == Seq::<usize>::empty(),
            remaining@.len() == i,
            forall|k: int| 0 <= k < i ==> remaining@[k] == waiting(#[trigger] all[k], nothing),
            forall|k: int|
                0 <= k < i ==> (remaining@[k] == 0 <==> order@.contains(#[trigger] (k as usize))),
            forall|p: int|
                0 <= p < order@.len() ==> (#[trigger] order@[p]) < i && all[order@[p] as int].len()
                    == 0,
            order@.no_duplicates(),
        decreases count - i,
    {
        let degree = graph[i].len();
        let ghost before = order@;
        proof {
            lemma_waiting_all(all[i as int]);
            if before.contains(i) {
                let p = choose|p: int| 0 <= p < before.len() && before[p] == i;
                assert(before[p] < i);
            }
        }
        remaining.push(degree);
        if degree == 0 {
            order.push(i);
        }
        proof {
            assert forall|k: int| 0 <= k < i + 1 implies (remaining@[k] == 0 <==> order@.contains(
                #[trigger] (k as usize),
            )) by {
                if k < i {
                    if before.contains(k as usize) {
                        let p = choose|p: int| 0 <= p < before.len() && before[p] == k as usize;
                        assert(order@[p] == k as usize);
                    }
                    if order@.contains(k as usize) {
                        let p = choose|p: int| 0 <= p < order@.len() && order@[p] == k as usize;
                        assert(before[p] == k as usize);
                    }
                } else if degree == 0 {
                    assert(order@[before.len() as int] == i);
                } else if order@.contains(i) {
                    assert(before.contains(i));
                }
            }
        }
        i += 1;
    }
    let mut head: usize = 0;
    assert(order@.take(0) =~= nothing);
    while head < order.len()
        invariant
            head <= order@.len(),
            count == graph@.len(),
            count == dependents@.len(),
            all == edges(graph@),
            closed(all),
            remaining@.len() == count,
            forall|v: int, c: int|
                0 <= v < graph@.len() && 0 <= c < graph@.len() ==> #[trigger] occurrences(
                    dependents@[v]@,
                    c as usize,
                ) == occurrences(graph@[c]@, v as usize),
            forall|v: int, m: int|
                0 <= v < graph@.len() && 0 <= m < dependents@[v]@.len()
                    ==> #[trigger] dependents@[v]@[m] < graph@.len(),
            forall|k: int|
                0 <= k < count ==> remaining@[k] == waiting(
                    #[trigger] all[k],
                    order@.take(head as int),
                ),
            forall|k: int|
                0 <= k < count ==> (remaining@[k] == 0 <==> order@.contains(
                    #[trigger] (k as usize),
                )),
            forall|p: int| 0 <= p < order@.len() ==> (#[trigger] order@[p]) < count,
            order@.no_duplicates(),
            in_order(all, order@),
        decreases count - head,
    {
        let v = order[head];
        let ghost done = order@.take(head as int);
        let ghost now = order@.take(head + 1);
        proof {
            assert(now =~= done.push(v));
            assert(!done.contains(v)) by {
                if done.contains(v) {
                    let p = choose|p: int| 0 <= p < done.len() && done[p] == v;
                    assert(order@[p] == order@[head as int]);
                }
            }
            lemma_fits(order@, count as nat);
        }
        let mut m: usize = 0;
        assert(dependents@[v as int]@.take(0) =~= Seq::<usize>::empty());
        while m < dependents[v].len()
            invariant
                v < count,
                head < order@.len(),
                m <= dependents@[v as int]@.len(),
                count == graph@.len(),
                count == dependents@.len(),
                all == edges(graph@),
                closed(all),
                remaining@.len() == count,
                order@.take(head as int) == done,
                order@.take(head + 1) == now,
                now == done.push(v),
                !done.contains(v),
                forall|v: int, c: int|
                    0 <= v < graph@.len() && 0 <= c < graph@.len() ==> #[trigger] occurrences(
                        dependents@[v]@,
                        c as usize,
                    ) == occurrences(graph@[c]@, v as usize),
                forall|v: int, m: int|
                    0 <= v < graph@.len() && 0 <= m < dependents@[v]@.len()
                        ==> #[trigger] dependents@[v]@[m] < graph@.len(),
                forall|k: int|
                    0 <= k < count ==> remaining@[k] + occurrences(
                        dependents@[v as int]@.take(m as int),
                        k as usize,
                    ) == waiting(#[trigger] all[k], done),
                forall|k: int|
                    0 <= k < count ==> (remaining@[k] == 0 <==> order@.contains(
                        #[trigger] (k as usize),
                    )),
                forall|p: int| 0 <= p < order@.len() ==> (#[trigger] order@[p]) < count,
                order@.no_duplicates(),
                in_order(all, order@),
            decreases dependents@[v as int]@.len() - m,
        {
            let child = dependents[v][m];
            let ghost list = dependents@[v as int]@;
            let ghost before = order@;
            let ghost before_remaining = remaining@;
            proof {
                assert(list[m as int] == child);
                assert(list.take(m + 1).drop_last() =~= list.take(m as int));
                lemma_occurrences_take(list, child, m + 1);
                lemma_waiting_done(all[child as int], done, v);
                assert(occurrences(list, child) == occurrences(graph@[child as int]@, v));
                assert(all[child as int] == graph@[child as int]@);
                assert(child as int as usize == child);
            }
            let left = remaining[child] - 1;
            remaining.set(child, left);
            if left == 0 {
                order.push(child);
            }
            proof {
                assert(!before.contains(child as int as usize));
                if left == 0 {
                    assert(waiting(all[child as int], now) == 0);
                    lemma_waiting_none(all[child as int], now);
                    assert(order@.take(head as int) =~= done);
                    assert(order@.take(head + 1) =~= now);
                    assert forall|p: int, j: int|
                        0 <= p < order@.len() && 0 <= j
                            < all[order@[p] as int].len() implies order@.take(p).contains(
                        #[trigger] all[order@[p] as int][j],
                    ) by {
                        if p < before.len() {
                            assert(before[p] == order@[p]);
                            assert(before.take(p).contains(all[before[p] as int][j]));
                            assert(before.take(p) =~= order@.take(p));
                        } else {
                            let d = all[child as int][j];
                            assert(now.contains(d));
                            let q = choose|q: int| 0 <= q < now.len() && now[q] == d;
                            assert(order@.take(p)[q] == d);
                        }
                    }
                }
                assert forall|k: int| 0 <= k < count implies (remaining@[k] == 0
                    <==> order@.contains(#[trigger] (k as usize))) by {
                    assert(before_remaining[k] == 0 <==> before.contains(k as usize));
                    if before.contains(k as usize) {
                        let p = choose|p: int| 0 <= p < before.len() && before[p] == k as usize;
                        assert(order@[p] == k as usize);
                    }
                    if k == child && left == 0 {
                        assert(order@[before.len() as int] == child);
                    }
                    if order@.contains(k as usize) {
                        let p = choose|p: int| 0 <= p < order@.len() && order@[p] == k as usize;
                        if p < before.len() {
                            assert(before[p] == k as usize);
                        }
                    }
                }
                assert forall|k: int| 0 <= k < count implies remaining@[k] + occurrences(
                    list.take(m + 1),
                    k as usize,
                ) == waiting(#[trigger] all[k], done) by {
                    assert(before_remaining[k] + occurrences(list.take(m as int), k as usize)
                        == waiting(all[k], done));
                }
            }
            m += 1;
        }
        proof {
            let list = dependents@[v as int]@;
            assert(list.take(m as int) =~= list);
            assert forall|k: int| 0 <= k < count implies remaining@[k] == waiting(
                #[trigger] all[k],
                now,
            ) by {
                lemma_waiting_done(all[k], done, v);
                assert(occurrences(list, k as usize) == occurrences(graph@[k]@, v));
            }
            lemma_fits(order@, count as nat);
        }
        head += 1;
    }
    proof {
        lemma_fits(order@, count as nat);
        assert(order@.take(head as int) =~= order@);
        assert forall|k: int| 0 <= k < graph@.len() && !order@.contains(
            k as usize,
        ) implies #[trigger] is_held_up(all, order@, k) by {
            assert(remaining@[k] == waiting(all[k], order@));
            assert(remaining@[k] == 0 <==> order@.contains(k as usize));
            lemma_waiting_some(all[k], order@);
        }
        if order@.len() == count {
            let rank = |n: int| order@.index_of(n as usize) as nat;
            assert forall|i: int, j: int| 0 <= i < all.len() && 0 <= j < all[i].len() implies rank(
                #[trigger] all[i][j] as int,
            ) < rank(i) by {
                lemma_complete(order@, count as nat, i as usize);
                let p = order@.index_of(i as usize);
                assert(order@[p] == i as usize);
                assert(order@.take(p).contains(all[order@[p] as int][j]));
                let d = all[i][j];
                let q = choose|q: int| 0 <= q < p && order@.take(p)[q] == d;
                assert(order@[q] == d);
                let r = order@.index_of(d);
                assert(order@[r] == d);
                assert(r == q);
            }
            assert(ranked(all, rank));
        } else if orderable(all) {
            let rank = choose|rank: spec_fn(int) -> nat| ranked(all, rank);
            let i = lemma_missing(order@, count as nat);
            assert forall|k: int| 0 <= k < all.len() && !order@.contains(k as usize) implies waiting(
                #[trigger] all[k],
                order@,
            ) > 0 by {
                assert(remaining@[k] == waiting(all[k], order@));
                assert(remaining@[k] == 0 <==> order@.contains(k as usize));
            }
            lemma_stuck(all, order@, rank, i as int);
        }
    }
    order
}

/// A list of nodes without repetition is no longer than the graph.
proof fn lemma_fits(order: Seq<usize>, count: nat)
    requires
        order.no_duplicates(),
        forall|p: int| 0 <= p < order.len() ==> #[trigger] order[p] < count,
    ensures
        order.len() <= count,
{
    let all = vstd::set_lib::set_int_range(0, count as int);
    let held = order.map_values(|n: usize| n as int);
    vstd::set_lib::lemma_int_range(0, count as int);
    assert(held.no_duplicates());
    held.unique_seq_to_set();
    assert forall|n: int| held.to_set().contains(n) implies all.contains(n) by {
        let p = choose|p: int| 0 <= p < held.len() && held[p] == n;
        assert(order[p] == n);
    }
    vstd::set_lib::lemma_len_subset(held.to_set(), all);
}

/// A shorter list misses a node.
proof fn lemma_missing(order: Seq<usize>, count: nat) -> (node: usize)
    requires
        order.len() < count,
        count <= usize::MAX,
    ensures
        node < count,
        !order.contains(node),
{
    if forall|node: usize| node < count ==> order.contains(node) {
        let all = vstd::set_lib::set_int_range(0, count as int);
        let held = order.map_values(|n: usize| n as int);
        vstd::set_lib::lemma_int_range(0, count as int);
        assert forall|n: int| all.contains(n) implies held.to_set().contains(n) by {
            assert(order.contains(n as usize));
            let p = choose|p: int| 0 <= p < order.len() && order[p] == n as usize;
            assert(held[p] == n);
        }
        vstd::seq_lib::seq_to_set_is_finite(held);
        vstd::set_lib::lemma_len_subset(all, held.to_set());
        held.lemma_cardinality_of_set();
        assert(false);
    }
    choose|node: usize| node < count && !order.contains(node)
}

} // verus!
