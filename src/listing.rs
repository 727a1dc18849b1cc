//! The list of a user's projects: projects with the user's time entries
//! first, most recent start first, then the others in membership order.
use vstd::prelude::*;
use crate::data::{role_of_text, ListProject, MemberRow, Project, Role, TimeEntry};
use crate::store::Store;

verus! {

/// The latest start time among the time entries of project `pid`, by any user.
pub open spec fn latest_start(t: Seq<TimeEntry>, pid: i64) -> Option<i64>
    decreases t.len(),
{
    if t.len() == 0 {
        None
    } else {
        let before = latest_start(t.drop_last(), pid);
        let e = t.last();
        if e.project == pid {
            match before {
                Some(b) => if b >= e.startdate {
                    Some(b)
                } else {
                    Some(e.startdate)
                },
                None => Some(e.startdate),
            }
        } else {
            before
        }
    }
}

/// The name of project `pid`, if it exists.
pub open spec fn project_name(ps: Seq<Project>, pid: i64) -> Option<String>
    decreases ps.len(),
{
    if ps.len() == 0 {
        None
    } else if ps.last().id == pid {
        Some(ps.last().name)
    } else {
        project_name(ps.drop_last(), pid)
    }
}

/// The role shown in a project listing: the stored role, or observer when
/// the stored text names no role.
pub open spec fn listed_role(text: Seq<char>) -> Role {
    match role_of_text(text) {
        Some(r) => r,
        None => Role::Observer,
    }
}

/// The projects user `uid` is a member of, in membership order, each with
/// the latest start of any time entry on it.
pub open spec fn member_projects(m: Seq<MemberRow>, ps: Seq<Project>, t: Seq<TimeEntry>, uid: i64) -> Seq<
    (ListProject, Option<i64>),
>
    decreases m.len(),
{
    if m.len() == 0 {
        Seq::empty()
    } else {
        let before = member_projects(m.drop_last(), ps, t, uid);
        let r = m.last();
        if r.user == uid && project_name(ps, r.project) is Some {
            before.push(
                (
                    ListProject {
                        id: r.project,
                        name: project_name(ps, r.project)->Some_0,
                        role: listed_role(r.role@),
                    },
                    latest_start(t, r.project),
                ),
            )
        } else {
            before
        }
    }
}

/// Whether the project at position `a` of `items` goes before the one at
/// `b`: its latest start is later, or the same and it comes first in
/// membership order.
pub open spec fn goes_before(items: Seq<(ListProject, Option<i64>)>, a: int, b: int) -> bool {
    items[a].1->Some_0 > items[b].1->Some_0 || (items[a].1->Some_0 == items[b].1->Some_0 && a < b)
}

/// Whether `ord` lists the positions in `items` of exactly the projects with
/// time entries, each once, in the order `goes_before`.
pub open spec fn recency_order(items: Seq<(ListProject, Option<i64>)>, ord: Seq<int>) -> bool {
    &&& forall|k: int|
        0 <= k < ord.len() ==> 0 <= #[trigger] ord[k] < items.len() && items[ord[k]].1 is Some
    &&& forall|j: int|
        0 <= j < items.len() && (#[trigger] items[j]).1 is Some ==> exists|k: int|
            0 <= k < ord.len() && ord[k] == j
    &&& forall|a: int, b: int|
        0 <= a < b < ord.len() ==> goes_before(items, #[trigger] ord[a], #[trigger] ord[b])
}

/// The projects of `items` without time entries, in membership order.
pub open spec fn idle_projects(items: Seq<(ListProject, Option<i64>)>) -> Seq<ListProject>
    decreases items.len(),
{
    if items.len() == 0 {
        Seq::empty()
    } else if items.last().1 is None {
        idle_projects(items.drop_last()).push(items.last().0)
    } else {
        idle_projects(items.drop_last())
    }
}

/// Whether `r` is the project list of user `uid` in `s`: the projects with
/// time entries, most recent latest start first, ties in membership order,
/// then the projects without any, in membership order.
pub open spec fn is_project_list(s: Store, uid: i64, r: Seq<ListProject>) -> bool {
    let items = member_projects(s.members@, s.projects@, s.timeentries@, uid);
    exists|ord: Seq<int>|
        #[trigger] recency_order(items, ord) && r == ord.map_values(|j: int| items[j].0)
            + idle_projects(items)
}

/// Adding a project without time entries keeps the order, and appends it
/// to the idle ones.
proof fn lemma_keep_order(
    items: Seq<(ListProject, Option<i64>)>,
    ord: Seq<int>,
    x: (ListProject, Option<i64>),
)
    requires
        recency_order(items, ord),
        x.1 is None,
    ensures
        recency_order(items.push(x), ord),
{
    let items1 = items.push(x);
    assert forall|k: int| 0 <= k < ord.len() implies 0 <= #[trigger] ord[k] < items1.len()
        && items1[ord[k]].1 is Some by {
        assert(items1[ord[k]] == items[ord[k]]);
    }
    assert forall|j: int| 0 <= j < items1.len() && (#[trigger] items1[j]).1 is Some implies exists|
        k: int,
    | 0 <= k < ord.len() && ord[k] == j by {
        assert(j < items.len());
        assert(items[j] == items1[j]);
    }
    assert forall|a: int, b: int| 0 <= a < b < ord.len() implies goes_before(
        items1,
        #[trigger] ord[a],
        #[trigger] ord[b],
    ) by {
        assert(goes_before(items, ord[a], ord[b]));
        assert(items1[ord[a]] == items[ord[a]] && items1[ord[b]] == items[ord[b]]);
    }
}

/// Inserting a project with time entries where the first strictly older one
/// stands keeps the order.
proof fn lemma_insert_recent(
    items: Seq<(ListProject, Option<i64>)>,
    ord: Seq<int>,
    keys: Seq<i64>,
    x: (ListProject, Option<i64>),
    p: int,
)
    requires
        recency_order(items, ord),
        keys.len() == ord.len(),
        forall|k: int| 0 <= k < ord.len() ==> keys[k] == #[trigger] items[ord[k]].1->Some_0,
        x.1 is Some,
        0 <= p <= keys.len(),
        forall|j: int| 0 <= j < p ==> keys[j] >= x.1->Some_0,
        p == keys.len() || keys[p] < x.1->Some_0,
    ensures
        recency_order(items.push(x), ord.insert(p, items.len() as int)),
{
    let n = items.len() as int;
    let items1 = items.push(x);
    let ord1 = ord.insert(p, n);
    let k = x.1->Some_0;
    assert forall|q: int| 0 <= q < ord1.len() implies ord1[q] == if q < p {
        ord[q]
    } else if q == p {
        n
    } else {
        ord[q - 1]
    } by {}
    assert forall|q: int| 0 <= q < ord1.len() implies 0 <= #[trigger] ord1[q] < items1.len()
        && items1[ord1[q]].1 is Some by {
        if q != p {
            let o = if q < p { q } else { q - 1 };
            assert(ord1[q] == ord[o]);
            assert(items1[ord[o]] == items[ord[o]]);
        }
    }
    assert forall|j: int| 0 <= j < items1.len() && (#[trigger] items1[j]).1 is Some implies exists|
        q: int,
    | 0 <= q < ord1.len() && ord1[q] == j by {
        if j == n {
            assert(ord1[p] == n);
        } else {
            assert(items[j] == items1[j]);
            let q0 = choose|q0: int| 0 <= q0 < ord.len() && ord[q0] == j;
            if q0 < p {
                assert(ord1[q0] == j);
            } else {
                assert(ord1[q0 + 1] == j);
            }
        }
    }
    assert forall|a: int, b: int| 0 <= a < b < ord1.len() implies goes_before(
        items1,
        #[trigger] ord1[a],
        #[trigger] ord1[b],
    ) by {
        if a != p && b != p {
            let oa = if a < p { a } else { a - 1 };
            let ob = if b < p { b } else { b - 1 };
            assert(goes_before(items, ord[oa], ord[ob]));
            assert(items1[ord[oa]] == items[ord[oa]] && items1[ord[ob]] == items[ord[ob]]);
        } else if a == p {
            let ob = b - 1;
            assert(items1[ord[ob]] == items[ord[ob]]);
            if ob > p {
                assert(goes_before(items, ord[p], ord[ob]));
            }
            assert(keys[p] < k);
            assert(keys[ob] <= keys[p]);
        } else {
            assert(items1[ord[a]] == items[ord[a]]);
            assert(keys[a] >= k);
            assert(ord[a] < n);
        }
    }
}

/// Appending a project adds it to the idle ones exactly when it has no
/// time entries.
proof fn lemma_idle_push(items: Seq<(ListProject, Option<i64>)>, x: (ListProject, Option<i64>))
    ensures
        idle_projects(items.push(x)) == if x.1 is None {
            idle_projects(items).push(x.0)
        } else {
            idle_projects(items)
        },
{
    assert(items.push(x).drop_last() =~= items);
}

/// Two recency orders with the same positions are the same order.
proof fn lemma_order_unique(items: Seq<(ListProject, Option<i64>)>, o1: Seq<int>, o2: Seq<int>)
    requires
        forall|a: int, b: int| 0 <= a < b < o1.len() ==> goes_before(items, #[trigger] o1[a], #[trigger] o1[b]),
        forall|a: int, b: int| 0 <= a < b < o2.len() ==> goes_before(items, #[trigger] o2[a], #[trigger] o2[b]),
        forall|x: int| o1.contains(x) <==> o2.contains(x),
    ensures
        o1 == o2,
    decreases o1.len(),
{
    if o1.len() == 0 {
        if o2.len() > 0 {
            assert(o2.contains(o2[0]));
        }
        assert(o1 =~= o2);
    } else {
        assert(o1.contains(o1[0]));
        assert(o2.len() > 0);
        assert(o2.contains(o2[0]));
        if o1[0] != o2[0] {
            let j = choose|j: int| 0 <= j < o1.len() && o1[j] == o2[0];
            let j2 = choose|j2: int| 0 <= j2 < o2.len() && o2[j2] == o1[0];
            assert(goes_before(items, o1[0], o1[j]));
            assert(goes_before(items, o2[0], o2[j2]));
        }
        let t1 = o1.drop_first();
        let t2 = o2.drop_first();
        assert forall|x: int| t1.contains(x) <==> t2.contains(x) by {
            if t1.contains(x) {
                let j = choose|j: int| 0 <= j < t1.len() && t1[j] == x;
                assert(o1[j + 1] == x);
                assert(goes_before(items, o1[0], o1[j + 1]));
                assert(o2.contains(x));
                let k = choose|k: int| 0 <= k < o2.len() && o2[k] == x;
                assert(k != 0);
                assert(t2[k - 1] == x);
            }
            if t2.contains(x) {
                let j = choose|j: int| 0 <= j < t2.len() && t2[j] == x;
                assert(o2[j + 1] == x);
                assert(goes_before(items, o2[0], o2[j + 1]));
                assert(o1.contains(x));
                let k = choose|k: int| 0 <= k < o1.len() && o1[k] == x;
                assert(k != 0);
                assert(t1[k - 1] == x);
            }
        }
        assert forall|a: int, b: int| 0 <= a < b < t1.len() implies goes_before(
            items,
            #[trigger] t1[a],
            #[trigger] t1[b],
        ) by {
            assert(t1[a] == o1[a + 1] && t1[b] == o1[b + 1]);
        }
        assert forall|a: int, b: int| 0 <= a < b < t2.len() implies goes_before(
            items,
            #[trigger] t2[a],
            #[trigger] t2[b],
        ) by {
            assert(t2[a] == o2[a + 1] && t2[b] == o2[b + 1]);
        }
        lemma_order_unique(items, t1, t2);
        assert(o1.len() == o2.len());
        assert forall|i: int| 0 <= i < o1.len() implies o1[i] == o2[i] by {
            if i > 0 {
                assert(o1[i] == t1[i - 1] && o2[i] == t2[i - 1]);
            }
        }
        assert(o1 =~= o2);
    }
}

/// The project list is determined: two lists that both meet the description
/// of a user's project list in the same store are equal.
pub proof fn lemma_project_list_unique(s: Store, uid: i64, r1: Seq<ListProject>, r2: Seq<ListProject>)
    requires
        is_project_list(s, uid, r1),
        is_project_list(s, uid, r2),
    ensures
        r1 == r2,
{
    let items = member_projects(s.members@, s.projects@, s.timeentries@, uid);
    let o1 = choose|o: Seq<int>|
        #[trigger] recency_order(items, o) && r1 == o.map_values(|j: int| items[j].0)
            + idle_projects(items);
    let o2 = choose|o: Seq<int>|
        #[trigger] recency_order(items, o) && r2 == o.map_values(|j: int| items[j].0)
            + idle_projects(items);
    assert forall|x: int| o1.contains(x) <==> o2.contains(x) by {
        if o1.contains(x) {
            let k = choose|k: int| 0 <= k < o1.len() && o1[k] == x;
            assert(items[o1[k]].1 is Some);
        }
        if o2.contains(x) {
            let k = choose|k: int| 0 <= k < o2.len() && o2[k] == x;
            assert(items[o2[k]].1 is Some);
        }
    }
    lemma_order_unique(items, o1, o2);
}

impl Store {
    /// The name of project `pid`, if it exists.
    fn project_name_of(&self, pid: i64) -> (r: Option<String>)
        ensures
            r == project_name(self.projects@, pid),
    {
        let mut found: Option<String> = None;
        let mut i: usize = 0;
        while i < self.projects.len()
            invariant
                i <= self.projects@.len(),
                found == project_name(self.projects@.subrange(0, i as int), pid),
            decreases self.projects@.len() - i,
        {
            proof {
                assert(self.projects@.subrange(0, i + 1).drop_last() =~= self.projects@.subrange(
                    0,
                    i as int,
                ));
            }
            if self.projects[i].id == pid {
                found = Some(self.projects[i].name.clone());
            }
            i = i + 1;
        }
        assert(self.projects@.subrange(0, i as int) =~= self.projects@);
        found
    }

    /// The latest start among the time entries of project `pid`.
    fn latest_start_of(&self, pid: i64) -> (r: Option<i64>)
        ensures
            r == latest_start(self.timeentries@, pid),
    {
        let mut best: Option<i64> = None;
        let mut i: usize = 0;
        while i < self.timeentries.len()
            invariant
                i <= self.timeentries@.len(),
                best == latest_start(self.timeentries@.subrange(0, i as int), pid),
            decreases self.timeentries@.len() - i,
        {
            proof {
                assert(self.timeentries@.subrange(0, i + 1).drop_last()
                    =~= self.timeentries@.subrange(0, i as int));
            }
            let e = &self.timeentries[i];
            if e.project == pid {
                best = match best {
                    Some(b) => if b >= e.startdate {
                        Some(b)
                    } else {
                        Some(e.startdate)
                    },
                    None => Some(e.startdate),
                };
            }
            i = i + 1;
        }
        assert(self.timeentries@.subrange(0, i as int) =~= self.timeentries@);
        best
    }

    /// The projects user `uid` is a member of, each with the user's role
    /// (observer when the stored role names none): first those with time
    /// entries, by the latest start of any entry on the project, most recent
    /// first, ties in membership order; then the others, in membership order.
    pub fn project_list(&self, uid: i64) -> (r: Vec<ListProject>)
        ensures
            is_project_list(*self, uid, r@),
    {
        let mut recent: Vec<ListProject> = Vec::new();
        let mut keys: Vec<i64> = Vec::new();
        let mut idle: Vec<ListProject> = Vec::new();
        let ghost mut ord: Seq<int> = Seq::empty();
        let mut i: usize = 0;
        while i < self.members.len()
            invariant
                i <= self.members@.len(),
                ({
                    let items = member_projects(
                        self.members@.subrange(0, i as int),
                        self.projects@,
                        self.timeentries@,
                        uid,
                    );
                    &&& recency_order(items, ord)
                    &&& recent@.len() == ord.len()
                    &&& keys@.len() == ord.len()
                    &&& forall|k: int|
                        0 <= k < ord.len() ==> #[trigger] recent@[k] == items[ord[k]].0
                            && keys@[k] == items[ord[k]].1->Some_0
                    &&& idle@ == idle_projects(items)
                }),
            decreases self.members@.len() - i,
        {
            let ghost sub = self.members@.subrange(0, i + 1);
            let ghost items0 = member_projects(
                self.members@.subrange(0, i as int),
                self.projects@,
                self.timeentries@,
                uid,
            );
            proof {
                assert(sub.drop_last() =~= self.members@.subrange(0, i as int));
            }
            let m = &self.members[i];
            if m.user == uid {
                match self.project_name_of(m.project) {
                    Some(name) => {
                        let role = match Role::from_str(m.role.as_str()) {
                            Ok(r) => r,
                            Err(_) => Role::Observer,
                        };
                        let item = ListProject { id: m.project, name, role };
                        let latest = self.latest_start_of(m.project);
                        let ghost items1 = items0.push((item, latest));
                        assert(member_projects(sub, self.projects@, self.timeentries@, uid)
                            == items1);
                        let ghost n = items0.len() as int;
                        match latest {
                            Some(k) => {
                                let mut p: usize = 0;
                                while p < keys.len() && keys[p] >= k
                                    invariant
                                        p <= keys@.len(),
                                        forall|j: int| 0 <= j < p ==> keys@[j] >= k,
                                    decreases keys@.len() - p,
                                {
                                    p = p + 1;
                                }
                                let ghost old_ord = ord;
                                let ghost old_keys = keys@;
                                let ghost old_recent = recent@;
                                recent.insert(p, item);
                                keys.insert(p, k);
                                proof {
                                    assert forall|q: int| 0 <= q < old_ord.len() implies old_keys[q]
                                        == #[trigger] items0[old_ord[q]].1->Some_0 by {
                                        assert(old_recent[q] == items0[old_ord[q]].0);
                                    }
                                    ord = old_ord.insert(p as int, n);
                                    lemma_insert_recent(items0, old_ord, old_keys, (item, latest), p as int);
                                    assert forall|q: int| 0 <= q < ord.len() implies #[trigger] recent@[q]
                                        == items1[ord[q]].0 && keys@[q] == items1[ord[q]].1->Some_0 by {
                                        if q < p {
                                            assert(recent@[q] == old_recent[q]);
                                            assert(ord[q] == old_ord[q]);
                                            assert(old_recent[q] == items0[old_ord[q]].0);
                                            assert(items1[ord[q]] == items0[old_ord[q]]);
                                        } else if q > p {
                                            assert(recent@[q] == old_recent[q - 1]);
                                            assert(ord[q] == old_ord[q - 1]);
                                            assert(old_recent[q - 1] == items0[old_ord[q - 1]].0);
                                            assert(items1[ord[q]] == items0[old_ord[q - 1]]);
                                        } else {
                                            assert(ord[q] == n);
                                        }
                                    }
                                    lemma_idle_push(items0, (item, latest));
                                }
                            },
                            None => {
                                idle.push(item);
                                proof {
                                    lemma_keep_order(items0, ord, (item, latest));
                                    assert forall|q: int| 0 <= q < ord.len() implies #[trigger] recent@[q]
                                        == items1[ord[q]].0 && keys@[q] == items1[ord[q]].1->Some_0 by {
                                        assert(recent@[q] == items0[ord[q]].0);
                                        assert(ord[q] < n);
                                        assert(items1[ord[q]] == items0[ord[q]]);
                                    }
                                    lemma_idle_push(items0, (item, latest));
                                }
                            },
                        }
                    },
                    None => {
                        assert(member_projects(sub, self.projects@, self.timeentries@, uid)
                            == items0);
                    },
                }
            } else {
                assert(member_projects(sub, self.projects@, self.timeentries@, uid) == items0);
            }
            proof {
                let items = member_projects(sub, self.projects@, self.timeentries@, uid);
                assert(recency_order(items, ord));
                assert(recent@.len() == ord.len());
                assert(keys@.len() == ord.len());
                assert(forall|k: int|
                    0 <= k < ord.len() ==> #[trigger] recent@[k] == items[ord[k]].0 && keys@[k]
                        == items[ord[k]].1->Some_0);
                assert(idle@ == idle_projects(items));
            }
            i = i + 1;
        }
        assert(self.members@.subrange(0, i as int) =~= self.members@);
        let ghost items = member_projects(self.members@, self.projects@, self.timeentries@, uid);
        let ghost rv = recent@;
        recent.append(&mut idle);
        proof {
            assert(rv =~= ord.map_values(|j: int| items[j].0));
            assert(recent@ =~= ord.map_values(|j: int| items[j].0) + idle_projects(items));
        }
        recent
    }
}

} // verus!
