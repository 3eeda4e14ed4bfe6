//! Circular doubly linked lists whose nodes live in one arena and refer to
//! each other by index, as the kernel's intrusive `ListHead` lists do by
//! address.
//!
//! A node is either the head of a list, a member of exactly one list, or
//! detached. The ghost map `lists` gives, for every head, the members of its
//! list in order from `head.next` round to `head.prev`.
use vstd::prelude::*;

verus! {

/// The links of one node: the indices of its successor and predecessor.
#[derive(Clone, Copy)]
pub struct ListHead {
    pub next: usize,
    pub prev: usize,
}

/// The successor of the `i`-th member of `s` in the circular list headed by `h`.
#[verifier::opaque]
pub open spec fn link_next(s: Seq<usize>, h: usize, i: int) -> usize {
    if i + 1 < s.len() {
        s[i + 1]
    } else {
        h
    }
}

/// The predecessor of the `i`-th member of `s` in the circular list headed by `h`.
#[verifier::opaque]
pub open spec fn link_prev(s: Seq<usize>, h: usize, i: int) -> usize {
    if i == 0 {
        h
    } else {
        s[i - 1]
    }
}

/// The node that follows head `h`: its first member, or `h` itself.
pub open spec fn first_or(s: Seq<usize>, h: usize) -> usize {
    if s.len() == 0 {
        h
    } else {
        s[0]
    }
}

/// The node that precedes head `h`: its last member, or `h` itself.
pub open spec fn last_or(s: Seq<usize>, h: usize) -> usize {
    if s.len() == 0 {
        h
    } else {
        s[s.len() - 1]
    }
}

/// An arena of list nodes.
pub struct ListArena {
    pub nodes: Vec<ListHead>,
    /// For every head, the members of its list in order.
    pub lists: Ghost<Map<usize, Seq<usize>>>,
    /// For every member, its head and its position in that head's list.
    pub loc: Ghost<Map<usize, (usize, int)>>,
}

impl ListArena {
    /// The links stored in the arena agree with the lists and positions
    /// recorded for every head and member.
    pub open spec fn wf(&self) -> bool {
        &&& forall|h: usize| #[trigger]
            self.lists@.dom().contains(h) ==> {
                &&& h < self.nodes.len()
                &&& !self.loc@.dom().contains(h)
                &&& self.nodes@[h as int].next == first_or(self.lists@[h], h)
                &&& self.nodes@[h as int].prev == last_or(self.lists@[h], h)
            }
        &&& forall|h: usize, i: int|
            self.lists@.dom().contains(h) && 0 <= i < self.lists@[h].len() ==> {
                &&& self.loc@.dom().contains(#[trigger] self.lists@[h][i])
                &&& self.loc@[self.lists@[h][i]] == (h, i)
            }
        &&& forall|m: usize| #[trigger]
            self.loc@.dom().contains(m) ==> {
                let (h, i) = self.loc@[m];
                &&& m < self.nodes.len()
                &&& self.lists@.dom().contains(h)
                &&& 0 <= i < self.lists@[h].len()
                &&& self.lists@[h][i] == m
                &&& self.nodes@[m as int].next == link_next(self.lists@[h], h, i)
                &&& self.nodes@[m as int].prev == link_prev(self.lists@[h], h, i)
            }
    }

    /// Whether `h` heads a list.
    pub open spec fn is_head(&self, h: usize) -> bool {
        self.lists@.dom().contains(h)
    }

    /// Whether `m` is a member of some list.
    pub open spec fn is_member(&self, m: usize) -> bool {
        self.loc@.dom().contains(m)
    }

    /// Whether `n` may be linked into a list: it is a node of the arena that
    /// belongs to no list and heads none that has members.
    pub open spec fn is_free(&self, n: usize) -> bool {
        &&& n < self.nodes.len()
        &&& !self.is_member(n)
        &&& self.is_head(n) ==> self.lists@[n].len() == 0
    }

    /// The members of the list headed by `h`.
    pub open spec fn members(&self, h: usize) -> Seq<usize> {
        self.lists@[h]
    }

    /// An empty arena.
    pub fn new() -> (r: ListArena)
        ensures
            r.wf(),
            r.nodes.len() == 0,
            r.lists@ == Map::<usize, Seq<usize>>::empty(),
            r.loc@ == Map::<usize, (usize, int)>::empty(),
    {
        ListArena { nodes: Vec::new(), lists: Ghost(Map::empty()), loc: Ghost(Map::empty()) }
    }
}

/// Adds a node to the arena as the head of a new, empty list, and returns
/// its index.
pub fn list_alloc(arena: &mut ListArena) -> (r: usize)
    requires
        old(arena).wf(),
        old(arena).nodes.len() < usize::MAX,
    ensures
        final(arena).wf(),
        r == old(arena).nodes.len(),
        final(arena).nodes.len() == old(arena).nodes.len() + 1,
        final(arena).lists@ == old(arena).lists@.insert(r, Seq::<usize>::empty()),
        final(arena).loc@ == old(arena).loc@,
{
    let r = arena.nodes.len();
    arena.nodes.push(ListHead { next: r, prev: r });
    arena.lists = Ghost(arena.lists@.insert(r, Seq::empty()));
    r
}

/// The positions of `loc` without those of the members of the list headed by
/// `list`.
pub open spec fn loc_without(loc: Map<usize, (usize, int)>, list: usize) -> Map<usize, (usize, int)> {
    Map::new(|m: usize| loc.dom().contains(m) && loc[m].0 != list, |m: usize| loc[m])
}

/// Makes `list` the head of an empty list. Whatever the list held is
/// dropped: its former members are linked nowhere afterwards.
pub fn list_init(arena: &mut ListArena, list: usize)
    requires
        old(arena).wf(),
        list < old(arena).nodes.len(),
        !old(arena).is_member(list),
    ensures
        final(arena).wf(),
        final(arena).nodes@ == old(arena).nodes@.update(list as int, ListHead { next: list, prev: list }),
        final(arena).lists@ == old(arena).lists@.insert(list, Seq::<usize>::empty()),
        final(arena).loc@ == loc_without(old(arena).loc@, list),
        old(arena).is_free(list) ==> final(arena).loc@ == old(arena).loc@,
{
    let ghost a = *arena;
    arena.nodes.set(list, ListHead { next: list, prev: list });
    arena.lists = Ghost(arena.lists@.insert(list, Seq::empty()));
    arena.loc = Ghost(loc_without(arena.loc@, list));
    proof {
        let b = *arena;
        assert forall|h: usize| #[trigger] b.lists@.dom().contains(h) implies {
            &&& h < b.nodes.len()
            &&& !b.loc@.dom().contains(h)
            &&& b.nodes@[h as int].next == first_or(b.lists@[h], h)
            &&& b.nodes@[h as int].prev == last_or(b.lists@[h], h)
        } by {
            if h != list {
                assert(a.lists@.dom().contains(h));
            }
        }
        assert forall|h: usize, i: int| b.lists@.dom().contains(h) && 0 <= i < b.lists@[h].len() implies {
            &&& b.loc@.dom().contains(#[trigger] b.lists@[h][i])
            &&& b.loc@[b.lists@[h][i]] == (h, i)
        } by {
            assert(h != list);
            assert(a.lists@.dom().contains(h));
            assert(a.loc@.dom().contains(a.lists@[h][i]));
        }
        assert forall|m: usize| #[trigger] b.loc@.dom().contains(m) implies {
            let (h, i) = b.loc@[m];
            &&& m < b.nodes.len()
            &&& b.lists@.dom().contains(h)
            &&& 0 <= i < b.lists@[h].len()
            &&& b.lists@[h][i] == m
            &&& b.nodes@[m as int].next == link_next(b.lists@[h], h, i)
            &&& b.nodes@[m as int].prev == link_prev(b.lists@[h], h, i)
        } by {
            assert(a.loc@.dom().contains(m));
            assert(m != list);
        }
        if a.is_free(list) {
            assert forall|m: usize| a.loc@.dom().contains(m) implies a.loc@[m].0 != list by {
                let (h, i) = a.loc@[m];
                if h == list {
                    assert(a.is_head(list));
                }
            }
            assert(b.loc@ =~= a.loc@);
        }
    }
}

/// Whether the list headed by `list` has no members.
pub fn list_is_empty(arena: &ListArena, list: usize) -> (r: bool)
    requires
        arena.wf(),
        arena.is_head(list),
    ensures
        r == (arena.members(list).len() == 0),
{
    let r = arena.nodes[list].next == list;
    proof {
        if arena.members(list).len() > 0 {
            let m = arena.lists@[list][0];
            assert(arena.loc@.dom().contains(m));
        }
    }
    r
}

/// Links the free node `item` in as the last member of the list headed by
/// `list`.
pub fn list_pushback(arena: &mut ListArena, item: usize, list: usize)
    requires
        old(arena).wf(),
        old(arena).is_head(list),
        old(arena).is_free(item),
        item != list,
    ensures
        final(arena).wf(),
        final(arena).nodes.len() == old(arena).nodes.len(),
        final(arena).lists@ == old(arena).lists@.remove(item).insert(
            list,
            old(arena).lists@[list].push(item),
        ),
        final(arena).loc@ == old(arena).loc@.insert(item, (list, old(arena).lists@[list].len() as int)),
{
    let ghost s = arena.lists@[list];
    let ghost old_arena = *arena;
    let p = arena.nodes[list].prev;
    arena.nodes.set(item, ListHead { next: list, prev: p });
    let pn = arena.nodes[p];
    arena.nodes.set(p, ListHead { next: item, prev: pn.prev });
    let ln = arena.nodes[list];
    arena.nodes.set(list, ListHead { next: ln.next, prev: item });
    let ghost s2 = s.push(item);
    arena.lists = Ghost(arena.lists@.remove(item).insert(list, s2));
    arena.loc = Ghost(arena.loc@.insert(item, (list, s.len() as int)));
    proof {
        reveal(link_next);
        reveal(link_prev);
        assert forall|h: usize| #[trigger] arena.lists@.dom().contains(h) implies {
            &&& h < arena.nodes.len()
            &&& !arena.loc@.dom().contains(h)
            &&& arena.nodes@[h as int].next == first_or(arena.lists@[h], h)
            &&& arena.nodes@[h as int].prev == last_or(arena.lists@[h], h)
        } by {
            assert(old_arena.lists@.dom().contains(h));
            if h != list && s.len() > 0 {
                assert(old_arena.loc@.dom().contains(p));
            }
        }
        assert forall|h: usize, i: int|
            arena.lists@.dom().contains(h) && 0 <= i < arena.lists@[h].len() implies {
                &&& arena.loc@.dom().contains(#[trigger] arena.lists@[h][i])
                &&& arena.loc@[arena.lists@[h][i]] == (h, i)
            } by {
            if h == list {
                if i < s.len() {
                    assert(old_arena.loc@.dom().contains(s[i]));
                }
            } else {
                assert(old_arena.loc@.dom().contains(old_arena.lists@[h][i]));
            }
        }
        assert forall|m: usize| #[trigger] arena.loc@.dom().contains(m) implies {
            let (h, i) = arena.loc@[m];
            &&& m < arena.nodes.len()
            &&& arena.lists@.dom().contains(h)
            &&& 0 <= i < arena.lists@[h].len()
            &&& arena.lists@[h][i] == m
            &&& arena.nodes@[m as int].next == link_next(arena.lists@[h], h, i)
            &&& arena.nodes@[m as int].prev == link_prev(arena.lists@[h], h, i)
        } by {
            if m != item {
                let (h, i) = old_arena.loc@[m];
                assert(old_arena.lists@.dom().contains(h));
                if h == list && s.len() > 0 {
                    assert(old_arena.loc@.dom().contains(s[s.len() - 1]));
                }
            }
        }
    }
}

/// Links the free node `item` in as the first member of the list headed by
/// `list`.
pub fn list_pushfront(arena: &mut ListArena, item: usize, list: usize)
    requires
        old(arena).wf(),
        old(arena).is_head(list),
        old(arena).is_free(item),
        item != list,
    ensures
        final(arena).wf(),
        final(arena).nodes.len() == old(arena).nodes.len(),
        final(arena).lists@ == old(arena).lists@.remove(item).insert(
            list,
            seq![item] + old(arena).lists@[list],
        ),
        final(arena).loc@ == Map::new(
            |m: usize| old(arena).loc@.dom().contains(m) || m == item,
            |m: usize|
                if m == item {
                    (list, 0int)
                } else if old(arena).loc@[m].0 == list {
                    (list, old(arena).loc@[m].1 + 1)
                } else {
                    old(arena).loc@[m]
                },
        ),
{
    let ghost s = arena.lists@[list];
    let ghost old_arena = *arena;
    let n = arena.nodes[list].next;
    arena.nodes.set(item, ListHead { next: n, prev: list });
    let nn = arena.nodes[n];
    arena.nodes.set(n, ListHead { next: nn.next, prev: item });
    let ln = arena.nodes[list];
    arena.nodes.set(list, ListHead { next: item, prev: ln.prev });
    let ghost s2 = seq![item] + s;
    let ghost new_loc = Map::new(
        |m: usize| old_arena.loc@.dom().contains(m) || m == item,
        |m: usize|
            if m == item {
                (list, 0int)
            } else if old_arena.loc@[m].0 == list {
                (list, old_arena.loc@[m].1 + 1)
            } else {
                old_arena.loc@[m]
            },
    );
    arena.lists = Ghost(arena.lists@.remove(item).insert(list, s2));
    arena.loc = Ghost(new_loc);
    proof {
        reveal(link_next);
        reveal(link_prev);
        assert forall|h: usize| #[trigger] arena.lists@.dom().contains(h) implies {
            &&& h < arena.nodes.len()
            &&& !arena.loc@.dom().contains(h)
            &&& arena.nodes@[h as int].next == first_or(arena.lists@[h], h)
            &&& arena.nodes@[h as int].prev == last_or(arena.lists@[h], h)
        } by {
            assert(old_arena.lists@.dom().contains(h));
            if h != list && s.len() > 0 {
                assert(old_arena.loc@.dom().contains(n));
            }
        }
        assert forall|h: usize, i: int|
            arena.lists@.dom().contains(h) && 0 <= i < arena.lists@[h].len() implies {
                &&& arena.loc@.dom().contains(#[trigger] arena.lists@[h][i])
                &&& arena.loc@[arena.lists@[h][i]] == (h, i)
            } by {
            if h == list {
                if i > 0 {
                    assert(s2[i] == s[i - 1]);
                    assert(old_arena.loc@.dom().contains(s[i - 1]));
                }
            } else {
                assert(old_arena.loc@.dom().contains(old_arena.lists@[h][i]));
            }
        }
        assert forall|m: usize| #[trigger] arena.loc@.dom().contains(m) implies {
            let (h, i) = arena.loc@[m];
            &&& m < arena.nodes.len()
            &&& arena.lists@.dom().contains(h)
            &&& 0 <= i < arena.lists@[h].len()
            &&& arena.lists@[h][i] == m
            &&& arena.nodes@[m as int].next == link_next(arena.lists@[h], h, i)
            &&& arena.nodes@[m as int].prev == link_prev(arena.lists@[h], h, i)
        } by {
            if m != item {
                let (h, i) = old_arena.loc@[m];
                assert(old_arena.lists@.dom().contains(h));
                if h == list {
                    assert(s2[i + 1] == s[i]);
                    if i + 1 < s.len() {
                        assert(s2[i + 2] == s[i + 1]);
                    }
                    if i > 0 {
                        assert(s2[i] == s[i - 1]);
                    }
                    if s.len() > 0 {
                        assert(old_arena.loc@.dom().contains(s[0]));
                    }
                }
            }
        }
    }
}

/// The links of node `k` after member `item` has been unlinked from its list.
pub open spec fn links_after_remove(a: ListArena, item: usize, k: usize) -> ListHead {
    let (h, i) = a.loc@[item];
    let s = a.lists@[h];
    let pv = link_prev(s, h, i);
    let nx = link_next(s, h, i);
    if k == item {
        ListHead { next: item, prev: item }
    } else if k == pv && k == nx {
        ListHead { next: nx, prev: pv }
    } else if k == pv {
        ListHead { next: nx, prev: a.nodes@[k as int].prev }
    } else if k == nx {
        ListHead { next: a.nodes@[k as int].next, prev: pv }
    } else {
        a.nodes@[k as int]
    }
}

/// The positions of the members after member `item` has been unlinked.
pub open spec fn loc_after_remove(a: ListArena, item: usize) -> Map<usize, (usize, int)> {
    let (h, i) = a.loc@[item];
    Map::new(
        |m: usize| a.loc@.dom().contains(m) && m != item,
        |m: usize|
            if a.loc@[m].0 == h && a.loc@[m].1 > i {
                (h, a.loc@[m].1 - 1)
            } else {
                a.loc@[m]
            },
    )
}

/// The lists after member `item` has been unlinked.
pub open spec fn lists_after_remove(a: ListArena, item: usize) -> Map<usize, Seq<usize>> {
    let (h, i) = a.loc@[item];
    a.lists@.insert(h, a.lists@[h].remove(i)).insert(item, Seq::<usize>::empty())
}

/// `b` is `a` with member `item` unlinked.
pub open spec fn remove_step(a: ListArena, b: ListArena, item: usize) -> bool {
    &&& a.wf()
    &&& a.is_member(item)
    &&& b.nodes.len() == a.nodes.len()
    &&& forall|k: int| 0 <= k < a.nodes.len() ==> #[trigger] b.nodes@[k] == links_after_remove(a, item, k as usize)
    &&& b.lists@ == lists_after_remove(a, item)
    &&& b.loc@ == loc_after_remove(a, item)
}

proof fn lemma_remove_heads(a: ListArena, b: ListArena, item: usize)
    requires
        remove_step(a, b, item),
    ensures
        forall|hh: usize| #[trigger] b.lists@.dom().contains(hh) ==> {
            &&& hh < b.nodes.len()
            &&& !b.loc@.dom().contains(hh)
            &&& b.nodes@[hh as int].next == first_or(b.lists@[hh], hh)
            &&& b.nodes@[hh as int].prev == last_or(b.lists@[hh], hh)
        },
{
    reveal(link_next);
    reveal(link_prev);
    let (h, i) = a.loc@[item];
    let s = a.lists@[h];
    let s2 = s.remove(i);
    assert(a.lists@.dom().contains(h));
    assert forall|hh: usize| #[trigger] b.lists@.dom().contains(hh) implies {
        &&& hh < b.nodes.len()
        &&& !b.loc@.dom().contains(hh)
        &&& b.nodes@[hh as int].next == first_or(b.lists@[hh], hh)
        &&& b.nodes@[hh as int].prev == last_or(b.lists@[hh], hh)
    } by {
        assert(b.nodes@[hh as int] == links_after_remove(a, item, hh));
        if hh != item {
            assert(a.lists@.dom().contains(hh));
            if hh != h {
                let t = a.lists@[hh];
                if t.len() > 0 {
                    assert(a.loc@.dom().contains(t[0]));
                    assert(a.loc@.dom().contains(t[t.len() - 1]));
                }
            } else {
                if i > 0 {
                    assert(a.loc@.dom().contains(s[i - 1]));
                }
                if i + 1 < s.len() {
                    assert(a.loc@.dom().contains(s[i + 1]));
                }
                if s2.len() > 0 {
                    if i == 0 {
                        assert(s2[0] == s[1]);
                    } else {
                        assert(s2[0] == s[0]);
                    }
                    if i == s.len() - 1 {
                        assert(s2[s2.len() - 1] == s[s.len() - 2]);
                    } else {
                        assert(s2[s2.len() - 1] == s[s.len() - 1]);
                    }
                }
            }
        }
    }
}

proof fn lemma_remove_members(a: ListArena, b: ListArena, item: usize)
    requires
        remove_step(a, b, item),
    ensures
        forall|hh: usize, j: int|
            b.lists@.dom().contains(hh) && 0 <= j < b.lists@[hh].len() ==> {
                &&& b.loc@.dom().contains(#[trigger] b.lists@[hh][j])
                &&& b.loc@[b.lists@[hh][j]] == (hh, j)
            },
{
    let (h, i) = a.loc@[item];
    let s = a.lists@[h];
    let s2 = s.remove(i);
    assert forall|hh: usize, j: int|
        b.lists@.dom().contains(hh) && 0 <= j < b.lists@[hh].len() implies {
            &&& b.loc@.dom().contains(#[trigger] b.lists@[hh][j])
            &&& b.loc@[b.lists@[hh][j]] == (hh, j)
        } by {
        if hh == h {
            if j < i {
                assert(s2[j] == s[j]);
                assert(a.loc@.dom().contains(s[j]));
            } else {
                assert(s2[j] == s[j + 1]);
                assert(a.loc@.dom().contains(s[j + 1]));
            }
        } else if hh != item {
            assert(a.loc@.dom().contains(a.lists@[hh][j]));
        }
    }
}

proof fn lemma_remove_links(a: ListArena, b: ListArena, item: usize)
    requires
        remove_step(a, b, item),
    ensures
        forall|m: usize| #[trigger] b.loc@.dom().contains(m) ==> {
            let (hh, j) = b.loc@[m];
            &&& m < b.nodes.len()
            &&& b.lists@.dom().contains(hh)
            &&& 0 <= j < b.lists@[hh].len()
            &&& b.lists@[hh][j] == m
            &&& b.nodes@[m as int].next == link_next(b.lists@[hh], hh, j)
            &&& b.nodes@[m as int].prev == link_prev(b.lists@[hh], hh, j)
        },
{
    reveal(link_next);
    reveal(link_prev);
    let (h, i) = a.loc@[item];
    let s = a.lists@[h];
    let s2 = s.remove(i);
    assert(a.lists@.dom().contains(h));
    assert forall|m: usize| #[trigger] b.loc@.dom().contains(m) implies {
        let (hh, j) = b.loc@[m];
        &&& m < b.nodes.len()
        &&& b.lists@.dom().contains(hh)
        &&& 0 <= j < b.lists@[hh].len()
        &&& b.lists@[hh][j] == m
        &&& b.nodes@[m as int].next == link_next(b.lists@[hh], hh, j)
        &&& b.nodes@[m as int].prev == link_prev(b.lists@[hh], hh, j)
    } by {
        let (h0, j0) = a.loc@[m];
        assert(a.lists@.dom().contains(h0));
        assert(b.nodes@[m as int] == links_after_remove(a, item, m));
        if h0 == h {
            assert(j0 != i);
            if j0 < i {
                assert(s2[j0] == s[j0]);
                if j0 + 1 < i {
                    assert(s2[j0 + 1] == s[j0 + 1]);
                } else if j0 + 1 < s2.len() {
                    assert(s2[j0 + 1] == s[j0 + 2]);
                }
                if j0 > 0 {
                    assert(s2[j0 - 1] == s[j0 - 1]);
                }
            } else {
                assert(s2[j0 - 1] == s[j0]);
                if j0 + 1 < s.len() {
                    assert(s2[j0] == s[j0 + 1]);
                }
                if j0 - 1 > 0 {
                    if j0 - 1 == i {
                        assert(s2[j0 - 2] == s[j0 - 2]);
                    } else {
                        assert(s2[j0 - 2] == s[j0 - 1]);
                    }
                }
            }
        } else {
            let t = a.lists@[h0];
            if j0 > 0 {
                assert(a.loc@.dom().contains(t[j0 - 1]));
            }
            if j0 + 1 < t.len() {
                assert(a.loc@.dom().contains(t[j0 + 1]));
            }
        }
    }
}

/// Unlinks the member `item` from its list and leaves it as the head of an
/// empty list of its own.
pub fn list_remove(arena: &mut ListArena, item: usize)
    requires
        old(arena).wf(),
        old(arena).is_member(item),
    ensures
        final(arena).wf(),
        final(arena).nodes.len() == old(arena).nodes.len(),
        final(arena).lists@ == lists_after_remove(*old(arena), item),
        final(arena).loc@ == loc_after_remove(*old(arena), item),
{
    let ghost a = *arena;
    let ghost h = arena.loc@[item].0;
    let ghost i = arena.loc@[item].1;
    let ghost s = arena.lists@[h];
    let it = arena.nodes[item];
    let pv = it.prev;
    let nx = it.next;
    proof {
        reveal(link_next);
        reveal(link_prev);
        assert(a.lists@.dom().contains(h));
        if i > 0 {
            assert(a.loc@.dom().contains(s[i - 1]));
        }
        if i + 1 < s.len() {
            assert(a.loc@.dom().contains(s[i + 1]));
        }
    }
    let pn = arena.nodes[pv];
    arena.nodes.set(pv, ListHead { next: nx, prev: pn.prev });
    let nn = arena.nodes[nx];
    arena.nodes.set(nx, ListHead { next: nn.next, prev: pv });
    arena.nodes.set(item, ListHead { next: item, prev: item });
    arena.lists = Ghost(lists_after_remove(a, item));
    arena.loc = Ghost(loc_after_remove(a, item));
    proof {
        assert(pv != item && nx != item);
        assert forall|k: int| 0 <= k < a.nodes.len() implies #[trigger] arena.nodes@[k]
            == links_after_remove(a, item, k as usize) by {}
        lemma_remove_heads(a, *arena, item);
        lemma_remove_members(a, *arena, item);
        lemma_remove_links(a, *arena, item);
    }
}

/// Unlinks and returns the first member of the list headed by `list`, or
/// returns `None` when the list is empty.
pub fn list_pop(arena: &mut ListArena, list: usize) -> (r: Option<usize>)
    requires
        old(arena).wf(),
        old(arena).is_head(list),
    ensures
        final(arena).wf(),
        final(arena).nodes.len() == old(arena).nodes.len(),
        old(arena).members(list).len() == 0 ==> r is None && final(arena).lists@ == old(arena).lists@
            && final(arena).loc@ == old(arena).loc@,
        old(arena).members(list).len() > 0 ==> {
            let s = old(arena).members(list);
            &&& r == Some(s[0])
            &&& final(arena).loc@ == loc_after_remove(*old(arena), s[0])
            &&& final(arena).lists@ == old(arena).lists@.insert(list, s.subrange(1, s.len() as int)).insert(
                s[0],
                Seq::<usize>::empty(),
            )
        },
{
    if list_is_empty(arena, list) {
        return None;
    }
    let ghost s = arena.lists@[list];
    let first = arena.nodes[list].next;
    proof {
        assert(arena.loc@.dom().contains(s[0]));
        assert(arena.loc@[s[0]] == (list, 0int));
    }
    list_remove(arena, first);
    assert(s.remove(0) =~= s.subrange(1, s.len() as int));
    Some(first)
}

/// Whether `item` is a member of the list headed by `list`, found by walking
/// the list from its head.
pub fn list_find(arena: &ListArena, list: usize, item: usize) -> (r: bool)
    requires
        arena.wf(),
        arena.is_head(list),
    ensures
        r == arena.members(list).contains(item),
{
    let ghost s = arena.lists@[list];
    let mut p = arena.nodes[list].next;
    let ghost mut k: int = 0;
    proof {
        reveal(link_next);
        reveal(link_prev);
        if s.len() > 0 {
            assert(arena.loc@.dom().contains(s[0]));
        }
    }
    while p != list
        invariant
            arena.wf(),
            arena.is_head(list),
            s == arena.lists@[list],
            0 <= k <= s.len(),
            p == (if k < s.len() { s[k] } else { list }),
            forall|j: int| 0 <= j < k ==> s[j] != item,
        decreases s.len() - k,
    {
        proof {
            reveal(link_next);
            if k == s.len() {
                assert(false);
            }
            assert(arena.loc@.dom().contains(s[k]));
        }
        if p == item {
            return true;
        }
        p = arena.nodes[p].next;
        proof {
            k = k + 1;
        }
    }
    proof {
        if k < s.len() {
            assert(arena.loc@.dom().contains(s[k]));
        }
        if s.contains(item) {
            let j = choose|j: int| 0 <= j < s.len() && s[j] == item;
        }
    }
    false
}

/// Moves the first member of the list headed by `list` to its end.
pub fn list_rotate_forward(arena: &mut ListArena, list: usize)
    requires
        old(arena).wf(),
        old(arena).is_head(list),
    ensures
        final(arena).wf(),
        final(arena).nodes.len() == old(arena).nodes.len(),
        old(arena).members(list).len() == 0 ==> final(arena).lists@ == old(arena).lists@,
        old(arena).members(list).len() > 0 ==> {
            let s = old(arena).members(list);
            final(arena).lists@ == old(arena).lists@.insert(list, s.subrange(1, s.len() as int).push(s[0]))
        },
{
    if list_is_empty(arena, list) {
        return;
    }
    let ghost a = *arena;
    let ghost s = arena.lists@[list];
    let first = arena.nodes[list].next;
    proof {
        assert(arena.loc@.dom().contains(s[0]));
    }
    list_remove(arena, first);
    assert(s.remove(0) =~= s.subrange(1, s.len() as int));
    list_pushback(arena, first, list);
    assert(arena.lists@ =~= a.lists@.insert(list, s.subrange(1, s.len() as int).push(s[0])));
}

/// Moves the last member of the list headed by `list` to its front.
pub fn list_rotate_backward(arena: &mut ListArena, list: usize)
    requires
        old(arena).wf(),
        old(arena).is_head(list),
    ensures
        final(arena).wf(),
        final(arena).nodes.len() == old(arena).nodes.len(),
        old(arena).members(list).len() == 0 ==> final(arena).lists@ == old(arena).lists@,
        old(arena).members(list).len() > 0 ==> {
            let s = old(arena).members(list);
            final(arena).lists@ == old(arena).lists@.insert(
                list,
                seq![s[s.len() - 1]] + s.subrange(0, s.len() - 1),
            )
        },
{
    if list_is_empty(arena, list) {
        return;
    }
    let ghost a = *arena;
    let ghost s = arena.lists@[list];
    let last = arena.nodes[list].prev;
    proof {
        assert(arena.loc@.dom().contains(s[s.len() - 1]));
    }
    list_remove(arena, last);
    assert(s.remove(s.len() - 1) =~= s.subrange(0, s.len() - 1));
    list_pushfront(arena, last, list);
    assert(arena.lists@ =~= a.lists@.insert(list, seq![s[s.len() - 1]] + s.subrange(0, s.len() - 1)));
}

/// The links of node `k` after the members of `src` are spliced onto the end
/// of the list headed by `dst` (or onto its front when `front`).
pub open spec fn links_after_append(a: ListArena, dst: usize, src: usize, front: bool, k: usize) -> ListHead {
    let d = a.lists@[dst];
    let s = a.lists@[src];
    let sf = s[0];
    let sl = s[s.len() - 1];
    if k == src {
        ListHead { next: src, prev: src }
    } else if !front {
        if k == dst {
            ListHead { next: if d.len() == 0 { sf } else { a.nodes@[k as int].next }, prev: sl }
        } else if k == sf && k == sl {
            ListHead { next: dst, prev: last_or(d, dst) }
        } else if k == sf {
            ListHead { next: a.nodes@[k as int].next, prev: last_or(d, dst) }
        } else if k == sl {
            ListHead { next: dst, prev: a.nodes@[k as int].prev }
        } else if d.len() > 0 && k == d[d.len() - 1] {
            ListHead { next: sf, prev: a.nodes@[k as int].prev }
        } else {
            a.nodes@[k as int]
        }
    } else {
        if k == dst {
            ListHead { next: sf, prev: if d.len() == 0 { sl } else { a.nodes@[k as int].prev } }
        } else if k == sf && k == sl {
            ListHead { next: first_or(d, dst), prev: dst }
        } else if k == sl {
            ListHead { next: first_or(d, dst), prev: a.nodes@[k as int].prev }
        } else if k == sf {
            ListHead { next: a.nodes@[k as int].next, prev: dst }
        } else if d.len() > 0 && k == d[0] {
            ListHead { next: a.nodes@[k as int].next, prev: sl }
        } else {
            a.nodes@[k as int]
        }
    }
}

/// The lists after the members of `src` are spliced onto `dst`.
pub open spec fn lists_after_append(a: ListArena, dst: usize, src: usize, front: bool) -> Map<usize, Seq<usize>> {
    let d = a.lists@[dst];
    let s = a.lists@[src];
    a.lists@.insert(dst, if front { s + d } else { d + s }).insert(src, Seq::<usize>::empty())
}

/// The positions of the members after the members of `src` are spliced onto `dst`.
pub open spec fn loc_after_append(a: ListArena, dst: usize, src: usize, front: bool) -> Map<usize, (usize, int)> {
    let dl = a.lists@[dst].len() as int;
    let sl = a.lists@[src].len() as int;
    Map::new(
        |m: usize| a.loc@.dom().contains(m),
        |m: usize|
            if a.loc@[m].0 == src {
                (dst, if front { a.loc@[m].1 } else { a.loc@[m].1 + dl })
            } else if a.loc@[m].0 == dst && front {
                (dst, a.loc@[m].1 + sl)
            } else {
                a.loc@[m]
            },
    )
}

/// `b` is `a` with the non-empty list of `src` spliced onto `dst`.
pub open spec fn append_step(a: ListArena, b: ListArena, dst: usize, src: usize, front: bool) -> bool {
    &&& a.wf()
    &&& a.is_head(dst)
    &&& a.is_head(src)
    &&& dst != src
    &&& a.lists@[src].len() > 0
    &&& b.nodes.len() == a.nodes.len()
    &&& forall|k: int| 0 <= k < a.nodes.len() ==> #[trigger] b.nodes@[k] == links_after_append(a, dst, src, front, k as usize)
    &&& b.lists@ == lists_after_append(a, dst, src, front)
    &&& b.loc@ == loc_after_append(a, dst, src, front)
}

proof fn lemma_append_facts(a: ListArena, dst: usize, src: usize)
    requires
        a.wf(),
        a.is_head(dst),
        a.is_head(src),
        dst != src,
        a.lists@[src].len() > 0,
    ensures
        a.loc@.dom().contains(a.lists@[src][0]),
        a.loc@.dom().contains(a.lists@[src][a.lists@[src].len() - 1]),
        a.lists@[dst].len() > 0 ==> a.loc@.dom().contains(a.lists@[dst][0]),
        a.lists@[dst].len() > 0 ==> a.loc@.dom().contains(a.lists@[dst][a.lists@[dst].len() - 1]),
{
    let s = a.lists@[src];
    let d = a.lists@[dst];
    assert(a.loc@.dom().contains(s[0]));
    assert(a.loc@.dom().contains(s[s.len() - 1]));
    if d.len() > 0 {
        assert(a.loc@.dom().contains(d[0]));
        assert(a.loc@.dom().contains(d[d.len() - 1]));
    }
}

proof fn lemma_append_heads(a: ListArena, b: ListArena, dst: usize, src: usize, front: bool)
    requires
        append_step(a, b, dst, src, front),
    ensures
        forall|hh: usize| #[trigger] b.lists@.dom().contains(hh) ==> {
            &&& hh < b.nodes.len()
            &&& !b.loc@.dom().contains(hh)
            &&& b.nodes@[hh as int].next == first_or(b.lists@[hh], hh)
            &&& b.nodes@[hh as int].prev == last_or(b.lists@[hh], hh)
        },
{
    let s = a.lists@[src];
    let d = a.lists@[dst];
    lemma_append_facts(a, dst, src);
    assert forall|hh: usize| #[trigger] b.lists@.dom().contains(hh) implies {
        &&& hh < b.nodes.len()
        &&& !b.loc@.dom().contains(hh)
        &&& b.nodes@[hh as int].next == first_or(b.lists@[hh], hh)
        &&& b.nodes@[hh as int].prev == last_or(b.lists@[hh], hh)
    } by {
        assert(a.lists@.dom().contains(hh));
        assert(b.nodes@[hh as int] == links_after_append(a, dst, src, front, hh));
        if hh != dst && hh != src {
            let t = a.lists@[hh];
            if t.len() > 0 {
                assert(a.loc@.dom().contains(t[0]));
                assert(a.loc@.dom().contains(t[t.len() - 1]));
            }
        }
        if hh == dst {
            if front {
                assert((s + d)[0] == s[0]);
                if d.len() == 0 {
                    assert((s + d)[(s + d).len() - 1] == s[s.len() - 1]);
                } else {
                    assert((s + d)[(s + d).len() - 1] == d[d.len() - 1]);
                }
            } else {
                assert((d + s)[(d + s).len() - 1] == s[s.len() - 1]);
                if d.len() == 0 {
                    assert((d + s)[0] == s[0]);
                } else {
                    assert((d + s)[0] == d[0]);
                }
            }
        }
    }
}

proof fn lemma_append_member(a: ListArena, dst: usize, src: usize, front: bool, hh: usize, j: int)
    requires
        a.wf(),
        a.is_head(dst),
        a.is_head(src),
        dst != src,
        lists_after_append(a, dst, src, front).dom().contains(hh),
        0 <= j < lists_after_append(a, dst, src, front)[hh].len(),
    ensures
        loc_after_append(a, dst, src, front).dom().contains(lists_after_append(a, dst, src, front)[hh][j]),
        loc_after_append(a, dst, src, front)[lists_after_append(a, dst, src, front)[hh][j]] == (hh, j),
{
    let s = a.lists@[src];
    let d = a.lists@[dst];
    if hh == dst {
        if front {
            assert(lists_after_append(a, dst, src, front)[hh] == s + d);
            if j < s.len() {
                assert((s + d)[j] == s[j]);
                assert(a.loc@.dom().contains(s[j]));
                assert(a.loc@[s[j]] == (src, j));
            } else {
                assert((s + d)[j] == d[j - s.len()]);
                assert(a.loc@.dom().contains(d[j - s.len()]));
                assert(a.loc@[d[j - s.len()]] == (dst, j - s.len()));
            }
        } else {
            assert(lists_after_append(a, dst, src, front)[hh] == d + s);
            if j < d.len() {
                assert((d + s)[j] == d[j]);
                assert(a.loc@.dom().contains(d[j]));
                assert(a.loc@[d[j]] == (dst, j));
            } else {
                assert((d + s)[j] == s[j - d.len()]);
                assert(a.loc@.dom().contains(s[j - d.len()]));
                assert(a.loc@[s[j - d.len()]] == (src, j - d.len()));
            }
        }
    } else {
        assert(hh != src);
        assert(lists_after_append(a, dst, src, front)[hh] == a.lists@[hh]);
        assert(a.loc@.dom().contains(a.lists@[hh][j]));
        assert(a.loc@[a.lists@[hh][j]] == (hh, j));
    }
}

proof fn lemma_append_members(a: ListArena, b: ListArena, dst: usize, src: usize, front: bool)
    requires
        append_step(a, b, dst, src, front),
    ensures
        forall|hh: usize, j: int|
            b.lists@.dom().contains(hh) && 0 <= j < b.lists@[hh].len() ==> {
                &&& b.loc@.dom().contains(#[trigger] b.lists@[hh][j])
                &&& b.loc@[b.lists@[hh][j]] == (hh, j)
            },
{
    assert forall|hh: usize, j: int|
        b.lists@.dom().contains(hh) && 0 <= j < b.lists@[hh].len() implies {
            &&& b.loc@.dom().contains(#[trigger] b.lists@[hh][j])
            &&& b.loc@[b.lists@[hh][j]] == (hh, j)
        } by {
        lemma_append_member(a, dst, src, front, hh, j);
    }
}

/// The links of node `m` after an append agree with its new position.
#[verifier::spinoff_prover]
#[verifier::rlimit(60)]
proof fn lemma_append_link_one(a: ListArena, b: ListArena, dst: usize, src: usize, front: bool, m: usize)
    requires
        append_step(a, b, dst, src, front),
        b.loc@.dom().contains(m),
    ensures
        ({
            let (hh, j) = b.loc@[m];
            &&& m < b.nodes.len()
            &&& b.lists@.dom().contains(hh)
            &&& 0 <= j < b.lists@[hh].len()
            &&& b.lists@[hh][j] == m
            &&& b.nodes@[m as int].next == link_next(b.lists@[hh], hh, j)
            &&& b.nodes@[m as int].prev == link_prev(b.lists@[hh], hh, j)
        }),
{
    reveal(link_next);
    reveal(link_prev);
    let s = a.lists@[src];
    let d = a.lists@[dst];
    let c = if front { s + d } else { d + s };
    lemma_append_facts(a, dst, src);
    let (h0, j0) = a.loc@[m];
    assert(a.lists@.dom().contains(h0));
    assert(b.nodes@[m as int] == links_after_append(a, dst, src, front, m));
    let t = a.lists@[h0];
    if j0 > 0 {
        assert(a.loc@.dom().contains(t[j0 - 1]));
    }
    if j0 + 1 < t.len() {
        assert(a.loc@.dom().contains(t[j0 + 1]));
    }
    if h0 == src {
        let j = if front { j0 } else { j0 + d.len() };
        assert(c[j] == s[j0]);
        if j0 > 0 {
            assert(c[j - 1] == s[j0 - 1]);
        }
        if j0 + 1 < s.len() {
            assert(c[j + 1] == s[j0 + 1]);
        }
        if front && j0 + 1 == s.len() && d.len() > 0 {
            assert(c[j + 1] == d[0]);
        }
        if !front && j0 == 0 && d.len() > 0 {
            assert(c[j - 1] == d[d.len() - 1]);
        }
    } else if h0 == dst {
        let j = if front { j0 + s.len() } else { j0 };
        assert(c[j] == d[j0]);
        if j0 > 0 {
            assert(c[j - 1] == d[j0 - 1]);
        }
        if j0 + 1 < d.len() {
            assert(c[j + 1] == d[j0 + 1]);
        }
        if front && j0 == 0 {
            assert(c[j - 1] == s[s.len() - 1]);
        }
        if !front && j0 + 1 == d.len() {
            assert(c[j + 1] == s[0]);
        }
    }
}

#[verifier::rlimit(40)]
proof fn lemma_append_links(a: ListArena, b: ListArena, dst: usize, src: usize, front: bool)
    requires
        append_step(a, b, dst, src, front),
    ensures
        forall|m: usize| #[trigger] b.loc@.dom().contains(m) ==> {
            let (hh, j) = b.loc@[m];
            &&& m < b.nodes.len()
            &&& b.lists@.dom().contains(hh)
            &&& 0 <= j < b.lists@[hh].len()
            &&& b.lists@[hh][j] == m
            &&& b.nodes@[m as int].next == link_next(b.lists@[hh], hh, j)
            &&& b.nodes@[m as int].prev == link_prev(b.lists@[hh], hh, j)
        },
{
    assert forall|m: usize| #[trigger] b.loc@.dom().contains(m) implies {
        let (hh, j) = b.loc@[m];
        &&& m < b.nodes.len()
        &&& b.lists@.dom().contains(hh)
        &&& 0 <= j < b.lists@[hh].len()
        &&& b.lists@[hh][j] == m
        &&& b.nodes@[m as int].next == link_next(b.lists@[hh], hh, j)
        &&& b.nodes@[m as int].prev == link_prev(b.lists@[hh], hh, j)
    } by {
        lemma_append_link_one(a, b, dst, src, front, m);
    }
}

/// Moves every member of the list headed by `src` onto the end of the list
/// headed by `dst`, in order, leaving `src` empty.
#[verifier::rlimit(40)]
pub fn list_append_back(arena: &mut ListArena, dst: usize, src: usize)
    requires
        old(arena).wf(),
        old(arena).is_head(dst),
        old(arena).is_head(src),
        dst != src,
    ensures
        final(arena).wf(),
        final(arena).nodes.len() == old(arena).nodes.len(),
        final(arena).lists@ == old(arena).lists@.insert(
            dst,
            old(arena).members(dst) + old(arena).members(src),
        ).insert(src, Seq::<usize>::empty()),
{
    if list_is_empty(arena, src) {
        assert(arena.members(src) =~= Seq::<usize>::empty());
        assert(arena.members(dst) + arena.members(src) =~= arena.members(dst));
        assert(arena.lists@ =~= arena.lists@.insert(dst, arena.members(dst) + arena.members(src)).insert(
            src,
            Seq::<usize>::empty(),
        ));
        return;
    }
    let ghost a = *arena;
    proof {
        lemma_append_facts(a, dst, src);
    }
    let sn = arena.nodes[src].next;
    let sp = arena.nodes[src].prev;
    let dp = arena.nodes[dst].prev;
    let x = arena.nodes[sn];
    arena.nodes.set(sn, ListHead { next: x.next, prev: dp });
    let x = arena.nodes[dp];
    arena.nodes.set(dp, ListHead { next: sn, prev: x.prev });
    let x = arena.nodes[dst];
    arena.nodes.set(dst, ListHead { next: x.next, prev: sp });
    let x = arena.nodes[sp];
    arena.nodes.set(sp, ListHead { next: dst, prev: x.prev });
    arena.nodes.set(src, ListHead { next: src, prev: src });
    arena.lists = Ghost(lists_after_append(a, dst, src, false));
    arena.loc = Ghost(loc_after_append(a, dst, src, false));
    proof {
        assert forall|k: int| 0 <= k < a.nodes.len() implies #[trigger] arena.nodes@[k]
            == links_after_append(a, dst, src, false, k as usize) by {}
        lemma_append_heads(a, *arena, dst, src, false);
        lemma_append_members(a, *arena, dst, src, false);
        lemma_append_links(a, *arena, dst, src, false);
    }
}

/// Moves every member of the list headed by `src` onto the front of the list
/// headed by `dst`, in order, leaving `src` empty.
#[verifier::rlimit(40)]
pub fn list_append_front(arena: &mut ListArena, dst: usize, src: usize)
    requires
        old(arena).wf(),
        old(arena).is_head(dst),
        old(arena).is_head(src),
        dst != src,
    ensures
        final(arena).wf(),
        final(arena).nodes.len() == old(arena).nodes.len(),
        final(arena).lists@ == old(arena).lists@.insert(
            dst,
            old(arena).members(src) + old(arena).members(dst),
        ).insert(src, Seq::<usize>::empty()),
{
    if list_is_empty(arena, src) {
        assert(arena.members(src) =~= Seq::<usize>::empty());
        assert(arena.members(src) + arena.members(dst) =~= arena.members(dst));
        assert(arena.lists@ =~= arena.lists@.insert(dst, arena.members(src) + arena.members(dst)).insert(
            src,
            Seq::<usize>::empty(),
        ));
        return;
    }
    let ghost a = *arena;
    proof {
        lemma_append_facts(a, dst, src);
    }
    let sn = arena.nodes[src].next;
    let sp = arena.nodes[src].prev;
    let dn = arena.nodes[dst].next;
    let x = arena.nodes[sp];
    arena.nodes.set(sp, ListHead { next: dn, prev: x.prev });
    let x = arena.nodes[dn];
    arena.nodes.set(dn, ListHead { next: x.next, prev: sp });
    let x = arena.nodes[dst];
    arena.nodes.set(dst, ListHead { next: sn, prev: x.prev });
    let x = arena.nodes[sn];
    arena.nodes.set(sn, ListHead { next: x.next, prev: dst });
    arena.nodes.set(src, ListHead { next: src, prev: src });
    arena.lists = Ghost(lists_after_append(a, dst, src, true));
    arena.loc = Ghost(loc_after_append(a, dst, src, true));
    proof {
        assert forall|k: int| 0 <= k < a.nodes.len() implies #[trigger] arena.nodes@[k]
            == links_after_append(a, dst, src, true, k as usize) by {}
        lemma_append_heads(a, *arena, dst, src, true);
        lemma_append_members(a, *arena, dst, src, true);
        lemma_append_links(a, *arena, dst, src, true);
    }
}

/// Rotating a list forward and then backward, or backward and then
/// forward, gives back its members in their order.
pub proof fn lemma_rotate_roundtrip(s: Seq<usize>)
    requires
        s.len() > 0,
    ensures
        ({
            let f = s.subrange(1, s.len() as int).push(s[0]);
            seq![f[f.len() - 1]] + f.subrange(0, f.len() - 1) == s
        }),
        ({
            let b = seq![s[s.len() - 1]] + s.subrange(0, s.len() - 1);
            b.subrange(1, b.len() as int).push(b[0]) == s
        }),
{
    let f = s.subrange(1, s.len() as int).push(s[0]);
    assert(seq![f[f.len() - 1]] + f.subrange(0, f.len() - 1) =~= s);
    let b = seq![s[s.len() - 1]] + s.subrange(0, s.len() - 1);
    assert(b.subrange(1, b.len() as int).push(b[0]) =~= s);
}

/// A list is a queue: members pushed at the back are popped from the front
/// in the order they were pushed.
pub proof fn lemma_push_pop_order(s: Seq<usize>, x: usize, y: usize)
    ensures
        ({
            let t = s.push(x).push(y);
            &&& t[0] == (if s.len() == 0 { x } else { s[0] })
            &&& t.subrange(1, t.len() as int) == (if s.len() == 0 {
                seq![y]
            } else {
                s.subrange(1, s.len() as int).push(x).push(y)
            })
        }),
{
    let t = s.push(x).push(y);
    if s.len() == 0 {
        assert(t.subrange(1, t.len() as int) =~= seq![y]);
    } else {
        assert(t.subrange(1, t.len() as int) =~= s.subrange(1, s.len() as int).push(x).push(y));
    }
}

} // verus!
