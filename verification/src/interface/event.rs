//! The events of the interface state machine, what each leads to, and the election of the
//! designated and backup designated routers.
use vstd::prelude::*;

use crate::interface::status::Status;
use crate::interface::NetworkType;
use crate::neighbor::status::Status as NeighborStatus;
use crate::neighbor::Neighbor;

verus! {

/// An event of the interface state machine.
#[derive(PartialEq, Eq, Clone, Debug)]
pub enum Event {
    InterfaceUp,
    WaitTimer,
    BackupSeen,
    NeighborChange(u32),
    LoopInd(String),
    UnloopInd,
    InterfaceDown,
}

/// The state of the first pass of the election, which picks the backup designated router.
pub struct BdrPass {
    pub cur_dr: u32,
    pub cur_bdr: u32,
    pub cur_priority: u8,
    pub bdr_selected: bool,
    pub max_priority: u8,
    pub max_priority_id: u32,
}

/// The state of the second pass of the election, which picks the designated router.
pub struct DrPass {
    pub cur_dr: u32,
    pub cur_priority: u8,
    pub max_priority: u8,
    pub max_priority_id: u32,
}

/// Whether a neighbor takes part in the election at all: its conversation is past two-way.
pub open spec fn spec_past_two_way(s: NeighborStatus) -> bool {
    s.rank() > NeighborStatus::TwoWay.rank()
}

/// One step of the first pass: a neighbor that declares itself backup competes, by priority
/// and then by id, for the backup role; until such a neighbor is seen, the others compete by
/// priority (ties going to an id above the current designated router, which then moves).
/// Neighbors that are not past two-way, that declare themselves designated router, or whose
/// priority is 0 are passed over.
pub open spec fn bdr_step(st: BdrPass, s: NeighborStatus, n: Neighbor) -> BdrPass {
    if !spec_past_two_way(s) || n.dr == n.id || n.priority == 0 {
        st
    } else if n.bdr == n.id {
        if n.priority > st.cur_priority {
            BdrPass { cur_priority: n.priority, cur_bdr: n.id, bdr_selected: true, ..st }
        } else if n.priority == st.cur_priority && n.id > st.cur_bdr {
            BdrPass { cur_bdr: n.id, bdr_selected: true, ..st }
        } else {
            st
        }
    } else if !st.bdr_selected {
        if n.priority > st.max_priority {
            BdrPass { max_priority: n.priority, max_priority_id: n.id, ..st }
        } else if n.priority == st.max_priority && n.id > st.cur_dr {
            BdrPass { cur_dr: n.id, max_priority_id: n.id, ..st }
        } else {
            st
        }
    } else {
        st
    }
}

/// The first pass over the neighbors in order.
pub open spec fn bdr_pass(st: BdrPass, ns: Seq<(NeighborStatus, Neighbor)>) -> BdrPass
    decreases ns.len(),
{
    if ns.len() == 0 {
        st
    } else {
        bdr_step(bdr_pass(st, ns.drop_last()), ns.last().0, ns.last().1)
    }
}

/// One step of the second pass: a neighbor that declares itself designated router competes,
/// by priority and then by id, against the current designated router; the others compete by
/// priority (ties going to an id above the current designated router). Neighbors that are not
/// past two-way, whose priority is 0, or that were elected backup are passed over.
pub open spec fn dr_step(st: DrPass, s: NeighborStatus, n: Neighbor, new_bdr: u32) -> DrPass {
    if !spec_past_two_way(s) || n.priority == 0 || n.id == new_bdr {
        st
    } else if n.dr == n.id {
        if n.priority > st.cur_priority {
            DrPass { cur_priority: n.priority, cur_dr: n.id, ..st }
        } else if n.priority == st.cur_priority && n.id > st.cur_dr {
            DrPass { cur_dr: n.id, ..st }
        } else {
            st
        }
    } else {
        if n.priority > st.max_priority {
            DrPass { max_priority: n.priority, max_priority_id: n.id, ..st }
        } else if n.priority == st.max_priority && n.id > st.cur_dr {
            DrPass { max_priority_id: n.id, ..st }
        } else {
            st
        }
    }
}

/// The second pass over the neighbors in order.
pub open spec fn dr_pass(st: DrPass, ns: Seq<(NeighborStatus, Neighbor)>, new_bdr: u32) -> DrPass
    decreases ns.len(),
{
    if ns.len() == 0 {
        st
    } else {
        dr_step(dr_pass(st, ns.drop_last(), new_bdr), ns.last().0, ns.last().1, new_bdr)
    }
}

/// The backup designated router that the election picks.
pub open spec fn spec_elected_bdr(cur_dr: u32, cur_bdr: u32, ns: Seq<(NeighborStatus, Neighbor)>) -> u32 {
    let st = bdr_pass(
        BdrPass {
            cur_dr,
            cur_bdr,
            cur_priority: 0,
            bdr_selected: false,
            max_priority: 0,
            max_priority_id: 0,
        },
        ns,
    );
    if st.bdr_selected {
        st.cur_bdr
    } else {
        st.max_priority_id
    }
}

/// The designated router that the election picks: the last candidate of the second pass (the
/// neighbors declaring themselves designated router only move the tie-breaking bar).
pub open spec fn spec_elected_dr(cur_dr: u32, cur_bdr: u32, ns: Seq<(NeighborStatus, Neighbor)>) -> u32 {
    let first = bdr_pass(
        BdrPass {
            cur_dr,
            cur_bdr,
            cur_priority: 0,
            bdr_selected: false,
            max_priority: 0,
            max_priority_id: 0,
        },
        ns,
    );
    dr_pass(
        DrPass { cur_dr: first.cur_dr, cur_priority: 0, max_priority: 0, max_priority_id: 0 },
        ns,
        spec_elected_bdr(cur_dr, cur_bdr, ns),
    ).max_priority_id
}

/// The interface state that the outcome of an election puts this router in.
pub open spec fn spec_status_after_election(dr: u32, bdr: u32, router_id: u32) -> Status {
    if dr == router_id {
        Status::DR
    } else if bdr == router_id {
        Status::Backup
    } else {
        Status::DRother
    }
}

/// A neighbor that may be elected backup: past two-way, with a non-zero priority, and not
/// declaring itself designated router.
pub open spec fn bdr_eligible(e: (NeighborStatus, Neighbor)) -> bool {
    spec_past_two_way(e.0) && e.1.priority != 0 && e.1.dr != e.1.id
}

/// A neighbor that may be elected designated router next to backup `bdr`: past two-way, with
/// a non-zero priority, and not the backup.
pub open spec fn dr_eligible(e: (NeighborStatus, Neighbor), bdr: u32) -> bool {
    spec_past_two_way(e.0) && e.1.priority != 0 && e.1.id != bdr
}

/// `id` is none (0) or the id of a neighbor that may be elected backup.
pub open spec fn bdr_choice(ns: Seq<(NeighborStatus, Neighbor)>, id: u32) -> bool {
    id == 0 || exists|i: int| 0 <= i < ns.len() && ns[i].1.id == id && #[trigger] bdr_eligible(ns[i])
}

/// `id` is none (0) or the id of a neighbor that may be elected designated router next to
/// backup `bdr`.
pub open spec fn dr_choice(ns: Seq<(NeighborStatus, Neighbor)>, id: u32, bdr: u32) -> bool {
    id == 0 || exists|i: int| 0 <= i < ns.len() && ns[i].1.id == id && #[trigger] dr_eligible(ns[i], bdr)
}

proof fn lemma_bdr_pass_candidates(st0: BdrPass, ns: Seq<(NeighborStatus, Neighbor)>)
    requires
        st0.max_priority_id == 0,
        !st0.bdr_selected,
    ensures
        bdr_choice(ns, bdr_pass(st0, ns).max_priority_id),
        bdr_pass(st0, ns).bdr_selected ==> bdr_choice(ns, bdr_pass(st0, ns).cur_bdr),
    decreases ns.len(),
{
    if ns.len() > 0 {
        let p = ns.drop_last();
        lemma_bdr_pass_candidates(st0, p);
        let st = bdr_pass(st0, p);
        let last = ns.len() - 1;
        assert(ns[last] == ns.last());
        let nst = bdr_pass(st0, ns);
        if nst.max_priority_id != 0 {
            if nst.max_priority_id != st.max_priority_id {
                assert(ns[last].1.id == nst.max_priority_id && bdr_eligible(ns[last]));
            } else {
                let i = choose|i: int| 0 <= i < p.len() && p[i].1.id == st.max_priority_id && #[trigger] bdr_eligible(p[i]);
                assert(ns[i] == p[i]);
                assert(ns[i].1.id == nst.max_priority_id && bdr_eligible(ns[i]));
            }
        }
        if nst.bdr_selected && nst.cur_bdr != 0 {
            if nst.cur_bdr != st.cur_bdr || !st.bdr_selected {
                assert(ns[last].1.id == nst.cur_bdr && bdr_eligible(ns[last]));
            } else {
                let i = choose|i: int| 0 <= i < p.len() && p[i].1.id == st.cur_bdr && #[trigger] bdr_eligible(p[i]);
                assert(ns[i] == p[i]);
                assert(ns[i].1.id == nst.cur_bdr && bdr_eligible(ns[i]));
            }
        }
    }
}

proof fn lemma_dr_pass_candidates(st0: DrPass, ns: Seq<(NeighborStatus, Neighbor)>, bdr: u32)
    requires
        st0.max_priority_id == 0,
    ensures
        dr_choice(ns, dr_pass(st0, ns, bdr).max_priority_id, bdr),
    decreases ns.len(),
{
    if ns.len() > 0 {
        let p = ns.drop_last();
        lemma_dr_pass_candidates(st0, p, bdr);
        let st = dr_pass(st0, p, bdr);
        let last = ns.len() - 1;
        assert(ns[last] == ns.last());
        let nst = dr_pass(st0, ns, bdr);
        if nst.max_priority_id != 0 {
            if nst.max_priority_id != st.max_priority_id {
                assert(ns[last].1.id == nst.max_priority_id && dr_eligible(ns[last], bdr));
            } else {
                let i = choose|i: int| 0 <= i < p.len() && p[i].1.id == st.max_priority_id && #[trigger] dr_eligible(p[i], bdr);
                assert(ns[i] == p[i]);
                assert(ns[i].1.id == nst.max_priority_id && dr_eligible(ns[i], bdr));
            }
        }
    }
}

/// The neighbor declares itself backup designated router.
pub open spec fn declares_bdr(e: (NeighborStatus, Neighbor)) -> bool {
    e.1.bdr == e.1.id
}

/// A neighbor that competes by priority for designated router next to backup `bdr`: eligible
/// for the role and not declaring itself designated router.
pub open spec fn dr_candidate(e: (NeighborStatus, Neighbor), bdr: u32) -> bool {
    dr_eligible(e, bdr) && e.1.dr != e.1.id
}

/// Among the backup candidates that declare themselves backup, the one `id` names has the
/// highest priority.
pub open spec fn top_declared_bdr(ns: Seq<(NeighborStatus, Neighbor)>, id: u32) -> bool {
    forall|j: int|
        0 <= j < ns.len() && #[trigger] bdr_eligible(ns[j]) && declares_bdr(ns[j]) ==> exists|i: int|
            0 <= i < ns.len() && bdr_eligible(ns[i]) && declares_bdr(ns[i]) && ns[i].1.id == id
                && ns[j].1.priority <= ns[i].1.priority
}

/// Among all the backup candidates, the one `id` names has the highest priority.
pub open spec fn top_bdr(ns: Seq<(NeighborStatus, Neighbor)>, id: u32) -> bool {
    forall|j: int|
        0 <= j < ns.len() && #[trigger] bdr_eligible(ns[j]) ==> exists|i: int|
            0 <= i < ns.len() && bdr_eligible(ns[i]) && ns[i].1.id == id && ns[j].1.priority
                <= ns[i].1.priority
}

/// Among the designated router candidates next to backup `bdr`, the one `id` names has the
/// highest priority.
pub open spec fn top_dr(ns: Seq<(NeighborStatus, Neighbor)>, id: u32, bdr: u32) -> bool {
    forall|j: int|
        0 <= j < ns.len() && #[trigger] dr_candidate(ns[j], bdr) ==> exists|i: int|
            0 <= i < ns.len() && dr_candidate(ns[i], bdr) && ns[i].1.id == id && ns[j].1.priority
                <= ns[i].1.priority
}

proof fn lemma_bdr_pass_priorities(st0: BdrPass, ns: Seq<(NeighborStatus, Neighbor)>)
    requires
        st0.cur_priority == 0,
        st0.max_priority == 0,
        !st0.bdr_selected,
    ensures
        ({
            let r = bdr_pass(st0, ns);
            &&& r.cur_priority != 0 ==> r.bdr_selected
            &&& forall|j: int|
                0 <= j < ns.len() && #[trigger] bdr_eligible(ns[j]) && declares_bdr(ns[j])
                    ==> r.bdr_selected && ns[j].1.priority <= r.cur_priority
            &&& r.bdr_selected ==> exists|i: int|
                0 <= i < ns.len() && bdr_eligible(ns[i]) && declares_bdr(ns[i]) && ns[i].1.id
                    == r.cur_bdr && ns[i].1.priority == r.cur_priority
            &&& !r.bdr_selected ==> forall|j: int|
                0 <= j < ns.len() && #[trigger] bdr_eligible(ns[j]) ==> ns[j].1.priority
                    <= r.max_priority
            &&& r.max_priority != 0 ==> exists|i: int|
                0 <= i < ns.len() && bdr_eligible(ns[i]) && ns[i].1.id == r.max_priority_id
                    && ns[i].1.priority == r.max_priority
        }),
    decreases ns.len(),
{
    if ns.len() > 0 {
        let p = ns.drop_last();
        lemma_bdr_pass_priorities(st0, p);
        let st = bdr_pass(st0, p);
        let r = bdr_pass(st0, ns);
        let last = ns.len() - 1;
        assert(ns[last] == ns.last());
        assert forall|j: int| 0 <= j < last implies ns[j] == p[j] by {}
        assert(r.cur_priority >= st.cur_priority && r.max_priority >= st.max_priority);
        assert(st.bdr_selected ==> r.bdr_selected);
        if r.bdr_selected {
            if r.cur_bdr == st.cur_bdr && r.cur_priority == st.cur_priority && st.bdr_selected {
                let i = choose|i: int|
                    0 <= i < p.len() && bdr_eligible(p[i]) && declares_bdr(p[i]) && p[i].1.id
                        == st.cur_bdr && p[i].1.priority == st.cur_priority;
                assert(ns[i] == p[i]);
            } else {
                assert(bdr_eligible(ns[last]) && declares_bdr(ns[last]));
            }
        }
        if r.max_priority != 0 {
            if r.max_priority_id == st.max_priority_id && r.max_priority == st.max_priority {
                let i = choose|i: int|
                    0 <= i < p.len() && bdr_eligible(p[i]) && p[i].1.id == st.max_priority_id
                        && p[i].1.priority == st.max_priority;
                assert(ns[i] == p[i]);
            } else {
                assert(bdr_eligible(ns[last]));
            }
        }
        assert forall|j: int|
            0 <= j < ns.len() && #[trigger] bdr_eligible(ns[j]) && declares_bdr(ns[j]) implies r.bdr_selected
                && ns[j].1.priority <= r.cur_priority by {
            if j < last {
                assert(bdr_eligible(p[j]) && declares_bdr(p[j]));
            }
        }
        if !r.bdr_selected {
            assert forall|j: int| 0 <= j < ns.len() && #[trigger] bdr_eligible(ns[j]) implies ns[j].1.priority
                <= r.max_priority by {
                if j < last {
                    assert(bdr_eligible(p[j]));
                }
            }
        }
    }
}

proof fn lemma_dr_pass_priorities(st0: DrPass, ns: Seq<(NeighborStatus, Neighbor)>, bdr: u32)
    requires
        st0.max_priority == 0,
    ensures
        ({
            let r = dr_pass(st0, ns, bdr);
            &&& forall|j: int|
                0 <= j < ns.len() && #[trigger] dr_candidate(ns[j], bdr) ==> ns[j].1.priority
                    <= r.max_priority
            &&& r.max_priority != 0 ==> exists|i: int|
                0 <= i < ns.len() && dr_candidate(ns[i], bdr) && ns[i].1.id == r.max_priority_id
                    && ns[i].1.priority == r.max_priority
        }),
    decreases ns.len(),
{
    if ns.len() > 0 {
        let p = ns.drop_last();
        lemma_dr_pass_priorities(st0, p, bdr);
        let st = dr_pass(st0, p, bdr);
        let r = dr_pass(st0, ns, bdr);
        let last = ns.len() - 1;
        assert(ns[last] == ns.last());
        assert(r.max_priority >= st.max_priority);
        if r.max_priority != 0 {
            if r.max_priority_id == st.max_priority_id && r.max_priority == st.max_priority {
                let i = choose|i: int|
                    0 <= i < p.len() && dr_candidate(p[i], bdr) && p[i].1.id == st.max_priority_id
                        && p[i].1.priority == st.max_priority;
                assert(ns[i] == p[i]);
            } else {
                assert(dr_candidate(ns[last], bdr));
            }
        }
        assert forall|j: int| 0 <= j < ns.len() && #[trigger] dr_candidate(ns[j], bdr) implies ns[j].1.priority
            <= r.max_priority by {
            if j < last {
                assert(ns[j] == p[j]);
                assert(dr_candidate(p[j], bdr));
            }
        }
    }
}

/// Only neighbors in `ExStart` or a later state (or being attempted), with a non-zero
/// priority, take part in the election: for backup, those not declaring themselves designated
/// router; for designated router, those other than the elected backup.
pub proof fn lemma_election_candidates(e: (NeighborStatus, Neighbor), bdr: u32)
    ensures
        bdr_eligible(e) == (e.0 != NeighborStatus::Down && e.0 != NeighborStatus::Init && e.0
            != NeighborStatus::TwoWay && e.1.priority > 0 && e.1.dr != e.1.id),
        dr_eligible(e, bdr) == (e.0 != NeighborStatus::Down && e.0 != NeighborStatus::Init && e.0
            != NeighborStatus::TwoWay && e.1.priority > 0 && e.1.id != bdr),
{
}

/// The backup that the election picks has the highest priority among the candidates that
/// declare themselves backup, where there are any; where none does, it has the highest
/// priority among all the candidates (neighbors past two-way, with a non-zero priority, not
/// declaring themselves designated router).
pub proof fn lemma_elected_bdr_has_highest_priority(
    cur_dr: u32,
    cur_bdr: u32,
    ns: Seq<(NeighborStatus, Neighbor)>,
)
    ensures
        top_declared_bdr(ns, spec_elected_bdr(cur_dr, cur_bdr, ns)),
        (forall|k: int| 0 <= k < ns.len() && #[trigger] bdr_eligible(ns[k]) ==> !declares_bdr(ns[k]))
            ==> top_bdr(ns, spec_elected_bdr(cur_dr, cur_bdr, ns)),
{
    let st0 = BdrPass {
        cur_dr,
        cur_bdr,
        cur_priority: 0,
        bdr_selected: false,
        max_priority: 0,
        max_priority_id: 0,
    };
    lemma_bdr_pass_priorities(st0, ns);
    let r = bdr_pass(st0, ns);
    let b = spec_elected_bdr(cur_dr, cur_bdr, ns);
    assert forall|j: int|
        0 <= j < ns.len() && #[trigger] bdr_eligible(ns[j]) && declares_bdr(ns[j]) implies exists|i: int|
            0 <= i < ns.len() && bdr_eligible(ns[i]) && declares_bdr(ns[i]) && ns[i].1.id == b
                && ns[j].1.priority <= ns[i].1.priority by {
        assert(r.bdr_selected);
    }
    if forall|k: int| 0 <= k < ns.len() && #[trigger] bdr_eligible(ns[k]) ==> !declares_bdr(ns[k]) {
        if r.bdr_selected {
            let i = choose|i: int|
                0 <= i < ns.len() && bdr_eligible(ns[i]) && declares_bdr(ns[i]) && ns[i].1.id
                    == r.cur_bdr && ns[i].1.priority == r.cur_priority;
            assert(!declares_bdr(ns[i]));
        }
        assert forall|j: int| 0 <= j < ns.len() && #[trigger] bdr_eligible(ns[j]) implies exists|i: int|
            0 <= i < ns.len() && bdr_eligible(ns[i]) && ns[i].1.id == b && ns[j].1.priority
                <= ns[i].1.priority by {
            assert(ns[j].1.priority <= r.max_priority);
        }
    }
}

/// The designated router that the election picks has the highest priority among the
/// neighbors that compete for it by priority: past two-way, with a non-zero priority, not the
/// elected backup and not declaring themselves designated router.
pub proof fn lemma_elected_dr_has_highest_priority(
    cur_dr: u32,
    cur_bdr: u32,
    ns: Seq<(NeighborStatus, Neighbor)>,
)
    ensures
        top_dr(ns, spec_elected_dr(cur_dr, cur_bdr, ns), spec_elected_bdr(cur_dr, cur_bdr, ns)),
{
    let first = bdr_pass(
        BdrPass {
            cur_dr,
            cur_bdr,
            cur_priority: 0,
            bdr_selected: false,
            max_priority: 0,
            max_priority_id: 0,
        },
        ns,
    );
    let bdr = spec_elected_bdr(cur_dr, cur_bdr, ns);
    let d0 = DrPass { cur_dr: first.cur_dr, cur_priority: 0, max_priority: 0, max_priority_id: 0 };
    lemma_dr_pass_priorities(d0, ns, bdr);
    let r = dr_pass(d0, ns, bdr);
    let d = spec_elected_dr(cur_dr, cur_bdr, ns);
    assert(d == r.max_priority_id);
    assert forall|j: int| 0 <= j < ns.len() && #[trigger] dr_candidate(ns[j], bdr) implies exists|i: int|
        0 <= i < ns.len() && dr_candidate(ns[i], bdr) && ns[i].1.id == d && ns[j].1.priority
            <= ns[i].1.priority by {
        assert(ns[j].1.priority <= r.max_priority);
    }
}

/// Runs the election among the neighbors of an interface whose designated and backup
/// designated routers are currently `cur_dr` and `cur_bdr`, and returns the new designated
/// router, the new backup and the state this router (`router_id`) is then in. Each elected
/// router is either none (0) or a neighbor eligible for the role, and the designated router
/// is never the neighbor elected backup.
pub fn select_dr_bdr(
    cur_dr: u32,
    cur_bdr: u32,
    neighbors: &Vec<(NeighborStatus, Neighbor)>,
    router_id: u32,
) -> (r: (u32, u32, Status))
    ensures
        r.1 == spec_elected_bdr(cur_dr, cur_bdr, neighbors@),
        r.0 == spec_elected_dr(cur_dr, cur_bdr, neighbors@),
        r.2 == spec_status_after_election(r.0, r.1, router_id),
        bdr_choice(neighbors@, r.1),
        dr_choice(neighbors@, r.0, r.1),
        top_declared_bdr(neighbors@, r.1),
        (forall|k: int|
            0 <= k < neighbors@.len() && #[trigger] bdr_eligible(neighbors@[k]) ==> !declares_bdr(
                neighbors@[k],
            )) ==> top_bdr(neighbors@, r.1),
        top_dr(neighbors@, r.0, r.1),
        (r.2 == Status::DR) == (r.0 == router_id),
        (r.2 == Status::Backup) == (r.0 != router_id && r.1 == router_id),
        (r.2 == Status::DRother) == (r.0 != router_id && r.1 != router_id),
{
    let ghost ns = neighbors@;
    let ghost cur_dr0 = cur_dr;
    let ghost cur_bdr0 = cur_bdr;
    let ghost st0 = BdrPass {
        cur_dr,
        cur_bdr,
        cur_priority: 0,
        bdr_selected: false,
        max_priority: 0,
        max_priority_id: 0,
    };
    let mut cur_dr = cur_dr;
    let mut cur_bdr = cur_bdr;
    let mut cur_priority: u8 = 0;
    let mut bdr_selct_flag = false;
    let mut max_priority: u8 = 0;
    let mut max_priority_id: u32 = 0;
    let mut i: usize = 0;
    while i < neighbors.len()
        invariant
            i <= neighbors.len(),
            ns == neighbors@,
            bdr_pass(st0, ns.take(i as int)) == (BdrPass {
                cur_dr,
                cur_bdr,
                cur_priority,
                bdr_selected: bdr_selct_flag,
                max_priority,
                max_priority_id,
            }),
        decreases neighbors.len() - i,
    {
        let (status, n) = neighbors[i];
        proof {
            assert(ns.take(i + 1).drop_last() == ns.take(i as int));
            assert(ns.take(i + 1).last() == ns[i as int]);
        }
        i = i + 1;
        if status.position() <= 2 {
            continue;
        }
        if n.dr == n.id || n.priority == 0 {
            continue;
        }
        if n.bdr == n.id {
            if n.priority > cur_priority {
                cur_priority = n.priority;
                cur_bdr = n.id;
                bdr_selct_flag = true;
            } else if n.priority == cur_priority {
                if n.id > cur_bdr {
                    cur_bdr = n.id;
                    bdr_selct_flag = true;
                }
            }
        } else if !bdr_selct_flag {
            if n.priority > max_priority {
                max_priority = n.priority;
                max_priority_id = n.id;
            } else if n.priority == max_priority {
                if n.id > cur_dr {
                    cur_dr = n.id;
                    max_priority_id = n.id;
                }
            }
        }
    }
    assert(ns.take(i as int) == ns);
    let new_bdr = if !bdr_selct_flag {
        max_priority_id
    } else {
        cur_bdr
    };
    let ghost d0 = DrPass { cur_dr, cur_priority: 0, max_priority: 0, max_priority_id: 0 };
    cur_priority = 0;
    max_priority = 0;
    max_priority_id = 0;
    let mut i: usize = 0;
    while i < neighbors.len()
        invariant
            i <= neighbors.len(),
            ns == neighbors@,
            dr_pass(d0, ns.take(i as int), new_bdr) == (DrPass {
                cur_dr,
                cur_priority,
                max_priority,
                max_priority_id,
            }),
        decreases neighbors.len() - i,
    {
        let (status, n) = neighbors[i];
        proof {
            assert(ns.take(i + 1).drop_last() == ns.take(i as int));
            assert(ns.take(i + 1).last() == ns[i as int]);
        }
        i = i + 1;
        if status.position() <= 2 {
            continue;
        }
        if n.priority == 0 || n.id == new_bdr {
            continue;
        }
        if n.dr == n.id {
            if n.priority > cur_priority {
                cur_priority = n.priority;
                cur_dr = n.id;
            } else if n.priority == cur_priority {
                if n.id > cur_dr {
                    cur_dr = n.id;
                }
            }
        } else {
            if n.priority > max_priority {
                max_priority = n.priority;
                max_priority_id = n.id;
            } else if n.priority == max_priority {
                if n.id > cur_dr {
                    max_priority_id = n.id;
                }
            }
        }
    }
    assert(ns.take(i as int) == ns);
    let new_dr = max_priority_id;
    proof {
        lemma_bdr_pass_candidates(st0, ns);
        lemma_dr_pass_candidates(d0, ns, new_bdr);
        lemma_elected_bdr_has_highest_priority(cur_dr0, cur_bdr0, ns);
        lemma_elected_dr_has_highest_priority(cur_dr0, cur_bdr0, ns);
    }
    let status = if new_dr == router_id {
        Status::DR
    } else if new_bdr == router_id {
        Status::Backup
    } else {
        Status::DRother
    };
    (new_dr, new_bdr, status)
}


/// What handling an interface event asks to be done.
#[derive(Clone, Copy, PartialEq, Eq, Debug, Structural)]
pub enum Step {
    /// The event is not valid in the current state: nothing changes.
    Ignore,
    /// Open the link and start the timers; the new state is what `status_when_up` gives
    /// for the outcome.
    BringUp,
    /// Run the election; the new state is its outcome.
    Elect,
    /// Run the election, enter its outcome, then start sending database description packets
    /// to the neighbor at this address.
    ElectAndStartDd(u32),
    /// Stop the interface's tasks, kill its neighbors, and enter this state.
    TearDown(Status),
    /// Enter this state.
    Enter(Status),
}

/// What `event` asks to be done in state `old`. After any event the router-LSA is built
/// anew.
pub open spec fn spec_step(old: Status, event: Event) -> Step {
    match event {
        Event::InterfaceUp => if old == Status::Down {
            Step::BringUp
        } else {
            Step::Ignore
        },
        Event::WaitTimer | Event::BackupSeen => if old == Status::Waiting {
            Step::Elect
        } else {
            Step::Ignore
        },
        Event::NeighborChange(naddr) => if old == Status::DR || old == Status::DRother || old
            == Status::Backup {
            Step::ElectAndStartDd(naddr)
        } else {
            Step::Ignore
        },
        Event::LoopInd(_) => Step::TearDown(Status::Loopback),
        Event::UnloopInd => if old == Status::Loopback {
            Step::Enter(Status::Down)
        } else {
            Step::Ignore
        },
        Event::InterfaceDown => Step::TearDown(Status::Down),
    }
}

/// The state after `step` was taken in state `old`, where bringing the interface up gave
/// `up` and an election would give `elected`.
pub open spec fn spec_status_after(old: Status, step: Step, up: Status, elected: Status) -> Status {
    match step {
        Step::Ignore => old,
        Step::BringUp => up,
        Step::Elect => elected,
        Step::ElectAndStartDd(_) => elected,
        Step::TearDown(s) => s,
        Step::Enter(s) => s,
    }
}

/// The state an interface enters when it is brought up: `Down` where its link could not be
/// opened, `Waiting` on broadcast and NBMA networks, `PointToPoint` on the others.
pub open spec fn spec_status_when_up(network_type: NetworkType, link_opened: bool) -> Status {
    if !link_opened {
        Status::Down
    } else if network_type == NetworkType::Broadcast || network_type == NetworkType::NBMA {
        Status::Waiting
    } else {
        Status::PointToPoint
    }
}

impl Event {
    /// Decides what the event asks to be done in state `old`.
    pub fn step(&self, old: Status) -> (r: Step)
        ensures
            r == spec_step(old, *self),
    {
        match self {
            Event::InterfaceUp => if old == Status::Down {
                Step::BringUp
            } else {
                Step::Ignore
            },
            Event::WaitTimer | Event::BackupSeen => if old == Status::Waiting {
                Step::Elect
            } else {
                Step::Ignore
            },
            Event::NeighborChange(naddr) => if old == Status::DR || old == Status::DRother || old
                == Status::Backup {
                Step::ElectAndStartDd(*naddr)
            } else {
                Step::Ignore
            },
            Event::LoopInd(_) => Step::TearDown(Status::Loopback),
            Event::UnloopInd => if old == Status::Loopback {
                Step::Enter(Status::Down)
            } else {
                Step::Ignore
            },
            Event::InterfaceDown => Step::TearDown(Status::Down),
        }
    }
}

/// The state after `step` was taken in state `old`, where bringing the interface up gave
/// `up` and an election would give `elected`.
pub fn status_after(old: Status, step: Step, up: Status, elected: Status) -> (r: Status)
    ensures
        r == spec_status_after(old, step, up, elected),
{
    match step {
        Step::Ignore => old,
        Step::BringUp => up,
        Step::Elect => elected,
        Step::ElectAndStartDd(_) => elected,
        Step::TearDown(s) => s,
        Step::Enter(s) => s,
    }
}

/// The state an interface enters when it is brought up.
pub fn status_when_up(network_type: NetworkType, link_opened: bool) -> (r: Status)
    ensures
        r == spec_status_when_up(network_type, link_opened),
{
    if !link_opened {
        Status::Down
    } else {
        match network_type {
            NetworkType::Broadcast | NetworkType::NBMA => Status::Waiting,
            _ => Status::PointToPoint,
        }
    }
}

/// A loop indication, whatever the state, takes the interface to `Loopback`, and the
/// indication that the loop is gone then takes it to `Down`.
pub proof fn lemma_loop_then_unloop_is_down(old: Status, name: String, up: Status, elected: Status)
    ensures
        ({
            let looped = spec_status_after(old, spec_step(old, Event::LoopInd(name)), up, elected);
            &&& looped == Status::Loopback
            &&& spec_status_after(looped, spec_step(looped, Event::UnloopInd), up, elected)
                == Status::Down
        }),
{
}

/// `InterfaceDown` takes the interface to `Down` from every state, and a loop indication to
/// `Loopback`, both by tearing the interface down.
pub proof fn lemma_teardown_from_any_state(old: Status, name: String)
    ensures
        spec_step(old, Event::InterfaceDown) == Step::TearDown(Status::Down),
        spec_step(old, Event::LoopInd(name)) == Step::TearDown(Status::Loopback),
{
}

/// An interface is only brought up from `Down`, and elections only run from `Waiting`
/// (on the wait timer or a backup seen) or from `DR`, `Backup` or `DRother` (on a neighbor
/// change); every other event in every other state leaves the state as it was.
pub proof fn lemma_acts_only_where_valid(old: Status, event: Event, up: Status, elected: Status)
    ensures
        spec_step(old, event) == Step::BringUp ==> old == Status::Down,
        spec_step(old, event) == Step::Elect ==> old == Status::Waiting,
        spec_step(old, event) is ElectAndStartDd ==> (old == Status::DR || old == Status::Backup
            || old == Status::DRother),
        spec_step(old, event) == Step::Ignore ==> spec_status_after(
            old,
            spec_step(old, event),
            up,
            elected,
        ) == old,
{
}

/// Bringing an interface up on a broadcast or NBMA network waits before the election; on
/// other networks it is at once point-to-point; a link that cannot be opened leaves it down.
pub proof fn lemma_up_states(network_type: NetworkType)
    ensures
        spec_status_when_up(network_type, false) == Status::Down,
        (network_type == NetworkType::Broadcast || network_type == NetworkType::NBMA)
            ==> spec_status_when_up(network_type, true) == Status::Waiting,
        !(network_type == NetworkType::Broadcast || network_type == NetworkType::NBMA)
            ==> spec_status_when_up(network_type, true) == Status::PointToPoint,
{
}

} // verus!
