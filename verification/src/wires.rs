use vstd::prelude::*;
use crate::random::{random_u32, RandomError};
use std::collections::HashMap;

verus! {

broadcast use vstd::std_specs::hash::group_hash_axioms;

/// Wires to connect.
pub const WIRES: usize = 2;
/// Sockets on the panel: each wire has two ends.
pub const WIRE_SOCKETS: usize = 4;

/// Hue, in degrees, of the wire drawn for task number `task`.
pub open spec fn hue_of(task: int) -> u32 {
    (360int / (WIRES as int) * ((task + 1) % (WIRES as int))) as u32
}

/// The first free socket met walking up from `a` (cyclically), looking at most
/// `fuel` sockets ahead; `a` itself when none is free within reach.
pub open spec fn next_free(used: Seq<bool>, a: int, fuel: nat) -> int
    decreases fuel,
{
    if fuel == 0 || !used[a] {
        a
    } else {
        next_free(used, (a + 1) % (WIRE_SOCKETS as int), (fuel - 1) as nat)
    }
}

/// Walking up from `b` (cyclically), the first socket whose opposite socket
/// (two places on) is free, looking at most `fuel` sockets ahead.
pub open spec fn next_free_opposite(used: Seq<bool>, b: int, fuel: nat) -> int
    decreases fuel,
{
    if fuel == 0 || !used[(b + WIRES as int) % (WIRE_SOCKETS as int)] {
        b
    } else {
        next_free_opposite(used, (b + 1) % (WIRE_SOCKETS as int), (fuel - 1) as nat)
    }
}

/// The two sockets a wire is bound to, from the random numbers `ra`, `rb`, given
/// the sockets already `used`: the first free socket from `ra`, then the socket
/// opposite the first one, from `rb`, whose opposite is free.
pub open spec fn free_pair(used: Seq<bool>, ra: u32, rb: u32) -> (int, int) {
    let a = next_free(used, (ra as int) % 4, 5);
    let used_a = used.update(a, true);
    let b = next_free_opposite(used_a, (rb as int) % 4, 5);
    (a, (b + WIRES as int) % (WIRE_SOCKETS as int))
}

/// The sockets of both wires, from four random numbers drawn in order.
pub open spec fn wire_layout(rolls: [u32; 4]) -> (int, int, int, int) {
    let none_used = seq![false, false, false, false];
    let (a0, b0) = free_pair(none_used, rolls[0], rolls[1]);
    let used = none_used.update(a0, true).update(b0, true);
    let (a1, b1) = free_pair(used, rolls[2], rolls[3]);
    (a0, b0, a1, b1)
}

/// The partner table that `rolls` deal: each wire's two sockets (see
/// `wire_layout`) are partners of each other.
pub open spec fn dealt_task(rolls: [u32; 4]) -> Map<usize, usize> {
    let (a0, b0, a1, b1) = wire_layout(rolls);
    Map::<usize, usize>::empty().insert(a0 as usize, b0 as usize).insert(b0 as usize, a0 as usize).insert(
        a1 as usize,
        b1 as usize,
    ).insert(b1 as usize, a1 as usize)
}

/// `colors` after `rolls` are dealt: both sockets of wire `w` get `hue_of(w)`,
/// the lower socket of a wire first.
pub open spec fn dealt_colors(colors: Map<usize, u32>, rolls: [u32; 4]) -> Map<usize, u32> {
    let (a0, b0, a1, b1) = wire_layout(rolls);
    colors.insert((if a0 <= b0 { a0 } else { b0 }) as usize, hue_of(0)).insert(
        (if a0 <= b0 { b0 } else { a0 }) as usize,
        hue_of(0),
    ).insert((if a1 <= b1 { a1 } else { b1 }) as usize, hue_of(1)).insert(
        (if a1 <= b1 { b1 } else { a1 }) as usize,
        hue_of(1),
    )
}

/// A partner table over the sockets is a perfect matching: every socket has a
/// partner other than itself, whose partner is the socket again.
pub open spec fn is_perfect_matching(task: Map<usize, usize>) -> bool {
    &&& forall|s: usize| #[trigger] task.contains_key(s) <==> s < WIRE_SOCKETS
    &&& forall|s: usize|
        #[trigger] task.contains_key(s) ==> task[s] < WIRE_SOCKETS && task[s] != s && task[task[s]] == s
}

/// Wired sockets come in pairs: a socket is never wired to itself, and its
/// partner is wired back to it.
pub open spec fn is_pairing(connected: Map<usize, usize>) -> bool {
    forall|s: usize|
        #[trigger] connected.contains_key(s) ==> connected[s] != s && connected.contains_key(connected[s])
            && connected[connected[s]] == s
}

/// Both ends of every wire of the task are drawn in the same colour.
pub open spec fn wire_ends_match(task: Map<usize, usize>, colors: Map<usize, u32>) -> bool {
    forall|s: usize|
        #[trigger] task.contains_key(s) ==> colors.contains_key(s) && colors.contains_key(task[s])
            && colors[s] == colors[task[s]]
}

/// The socket `j` places on from `start` (cyclically) is used.
pub open spec fn used_ahead(used: Seq<bool>, start: int, j: int) -> bool {
    used[(start + j) % 4]
}

proof fn lemma_cycle_covers(used: Seq<bool>, start: int)
    requires
        0 <= start < 8,
        used_ahead(used, start, 0),
        used_ahead(used, start, 1),
        used_ahead(used, start, 2),
        used_ahead(used, start, 3),
    ensures
        forall|k: int| 0 <= k < 4 ==> used[k],
{
    let m = start % 4;
    assert(m == 0 || m == 1 || m == 2 || m == 3);
    assert((start + 0) % 4 == m);
    assert((start + 1) % 4 == (m + 1) % 4);
    assert((start + 2) % 4 == (m + 2) % 4);
    assert((start + 3) % 4 == (m + 3) % 4);
}

/// State of the reactor wiring task.
pub struct WireMinigame {
    /// The socket whose wire is being dragged.
    pub locked_id: Option<usize>,
    /// For each socket, the socket it must be wired to.
    pub task: HashMap<usize, usize>,
    /// For each socket, the hue in degrees its wire is drawn in.
    pub colors: HashMap<usize, u32>,
    /// For each socket, the socket it is wired to.
    pub connected: HashMap<usize, usize>,
    pub allow_unordered: bool,
}

/// What releasing a dragged wire over another socket does.
#[derive(Clone, Copy, Debug, PartialEq, Eq, Structural)]
pub enum ConnectOutcome {
    /// One of the two sockets is already wired; nothing changes.
    AlreadyConnected,
    /// The sockets are wired although the task pairs them otherwise: the repair failed.
    Wrong,
    /// The sockets are wired and the repair is reported as done.
    Solved,
    /// The sockets are wired, as the task asks.
    Connected,
}

/// Binds one wire: finds a free socket from `a` and a socket from `b` whose
/// opposite is free, marks both used, and returns them smaller first.
fn get_free_ids(used: &mut Vec<bool>, a: usize, b: usize) -> (r: (usize, usize))
    requires
        old(used)@.len() == WIRE_SOCKETS,
        a < WIRE_SOCKETS,
        b < WIRE_SOCKETS,
        exists|k1: int, k2: int| 0 <= k1 < k2 < WIRE_SOCKETS && !old(used)@[k1] && !old(used)@[k2],
    ensures
        ({
            let fa = next_free(old(used)@, a as int, 5);
            let fb = (next_free_opposite(old(used)@.update(fa, true), b as int, 5) + WIRES as int) % (
            WIRE_SOCKETS as int);
            &&& 0 <= fa < WIRE_SOCKETS
            &&& 0 <= fb < WIRE_SOCKETS
            &&& fa != fb
            &&& !old(used)@[fa]
            &&& !old(used)@[fb]
            &&& final(used)@ == old(used)@.update(fa, true).update(fb, true)
            &&& r.0 as int == if fa <= fb { fa } else { fb }
            &&& r.1 as int == if fa <= fb { fb } else { fa }
        }),
{
    let ghost used0 = used@;
    let ghost a0 = a;
    let mut a = a;
    let mut i: usize = 0;
    while used[a]
        invariant
            used@ == used0,
            used0.len() == WIRE_SOCKETS,
            a < WIRE_SOCKETS,
            i <= 4,
            a as int == (a0 + i) % 4,
            forall|j: int| 0 <= j < i ==> #[trigger] used_ahead(used0, a0 as int, j),
            next_free(used0, a as int, (5 - i) as nat) == next_free(used0, a0 as int, 5),
            exists|k1: int, k2: int| 0 <= k1 < k2 < WIRE_SOCKETS && !used0[k1] && !used0[k2],
        ensures
            used@ == used0,
            a < WIRE_SOCKETS,
            !used0[a as int],
            next_free(used0, a0 as int, 5) == a,
        decreases 4 - i,
    {
        proof {
            assert(used_ahead(used0, a0 as int, i as int));
            if i >= 3 {
                assert(used_ahead(used0, a0 as int, 0) && used_ahead(used0, a0 as int, 1)
                    && used_ahead(used0, a0 as int, 2) && used_ahead(used0, a0 as int, 3));
                lemma_cycle_covers(used0, a0 as int);
                let (k1, k2) = choose|k1: int, k2: int| 0 <= k1 < k2 < WIRE_SOCKETS && !used0[k1] && !used0[k2];
                assert(false);
            }
        }
        a = (a + 1) % WIRE_SOCKETS;
        if i > WIRE_SOCKETS {
            break;
        } else {
            i += 1;
        }
    }
    let ghost fa = a as int;
    used.set(a, true);
    let ghost used1 = used@;
    proof {
        let (k1, k2) = choose|k1: int, k2: int| 0 <= k1 < k2 < WIRE_SOCKETS && !used0[k1] && !used0[k2];
        if k1 == fa {
            assert(!used1[k2]);
        } else {
            assert(!used1[k1]);
        }
    }
    let ghost b0 = b;
    let mut b = b;
    let mut i: usize = 0;
    while used[(b + WIRES) % WIRE_SOCKETS]
        invariant
            used@ == used1,
            used1 == used0.update(fa, true),
            used1.len() == WIRE_SOCKETS,
            b < WIRE_SOCKETS,
            i <= 4,
            b as int == (b0 + i) % 4,
            forall|j: int| 0 <= j < i ==> #[trigger] used_ahead(used1, b0 + 2, j),
            next_free_opposite(used1, b as int, (5 - i) as nat) == next_free_opposite(used1, b0 as int, 5),
            exists|k: int| 0 <= k < WIRE_SOCKETS && !used1[k],
        ensures
            used@ == used1,
            b < WIRE_SOCKETS,
            !used1[(b as int + 2) % 4],
            next_free_opposite(used1, b0 as int, 5) == b,
        decreases 4 - i,
    {
        proof {
            assert(used_ahead(used1, b0 + 2, i as int));
            if i >= 3 {
                assert(used_ahead(used1, b0 + 2, 0) && used_ahead(used1, b0 + 2, 1)
                    && used_ahead(used1, b0 + 2, 2) && used_ahead(used1, b0 + 2, 3));
                lemma_cycle_covers(used1, b0 + 2);
                let k = choose|k: int| 0 <= k < WIRE_SOCKETS && !used1[k];
                assert(false);
            }
        }
        b = (b + 1) % WIRE_SOCKETS;
        if i > WIRE_SOCKETS {
            break;
        } else {
            i += 1;
        }
    }
    b = (b + WIRES) % WIRE_SOCKETS;
    used.set(b, true);
    if a <= b {
        (a, b)
    } else {
        (b, a)
    }
}

proof fn lemma_two_free(a: int, b: int)
    requires
        0 <= a < 4,
        0 <= b < 4,
        a != b,
    ensures
        exists|k1: int, k2: int|
            0 <= k1 < k2 < WIRE_SOCKETS && !seq![false, false, false, false].update(a, true).update(b, true)[k1]
                && !seq![false, false, false, false].update(a, true).update(b, true)[k2],
{
    let u = seq![false, false, false, false].update(a, true).update(b, true);
    let k1: int = if a != 0 && b != 0 { 0 } else if a != 1 && b != 1 { 1 } else { 2 };
    let k2: int = if a != 3 && b != 3 { 3 } else if a != 2 && b != 2 { 2 } else { 1 };
    assert(!u[k1] && !u[k2] && k1 < k2);
}

impl WireMinigame {
    /// Sockets wired so far.
    pub open spec fn wired(&self) -> Map<usize, usize> {
        self.connected@
    }

    /// Records the colour of the wire at socket `idx`, drawn for task number `task`.
    pub fn calc_color(&mut self, idx: usize, task: usize)
        ensures
            final(self).colors@ == old(self).colors@.insert(idx, hue_of(task as int)),
            final(self).task@ == old(self).task@,
            final(self).connected@ == old(self).connected@,
            final(self).locked_id == old(self).locked_id,
            final(self).allow_unordered == old(self).allow_unordered,
    {
        let hue: u32 = (360 / (WIRES as u32)) * (((task % WIRES) as u32 + 1) % (WIRES as u32));
        assert((task as int + 1) % 2 == ((task as int % 2) + 1) % 2);
        self.colors.insert(idx, hue);
    }

    /// Hue in degrees of the wire at socket `idx`; `None` (drawn white) when it has none.
    pub fn get_color(&self, idx: usize) -> (r: Option<u32>)
        ensures
            r == if self.colors@.contains_key(idx) { Some(self.colors@[idx]) } else { None },
    {
        match self.colors.get(&idx) {
            Some(h) => Some(*h),
            None => None,
        }
    }

    /// Starts a new round from four random numbers, drawn in this order: the two
    /// ends of the first wire, then the two ends of the second. Each wire is bound
    /// to a free socket and, two places on, a socket opposite a free one; both its
    /// sockets get the wire's colour. Nothing is wired yet afterwards.
    pub fn refresh_game_with(&mut self, rolls: [u32; 4])
        ensures
            final(self).task@ == dealt_task(rolls),
            final(self).colors@ == dealt_colors(old(self).colors@, rolls),
            final(self).connected@ == Map::<usize, usize>::empty(),
            final(self).locked_id == old(self).locked_id,
            final(self).allow_unordered == old(self).allow_unordered,
            is_perfect_matching(final(self).task@),
            wire_ends_match(final(self).task@, final(self).colors@),
    {
        self.task = HashMap::new();
        self.connected = HashMap::new();
        let mut used: Vec<bool> = vec![false, false, false, false];
        let ghost none_used = seq![false, false, false, false];
        assert(used@ == none_used);
        assert(!none_used[0] && !none_used[1]);
        let (a0, b0) = get_free_ids(&mut used, (rolls[0] as usize) % WIRE_SOCKETS, (rolls[1] as usize) % WIRE_SOCKETS);
        self.calc_color(a0, 0);
        self.calc_color(b0, 0);
        self.task.insert(a0, b0);
        self.task.insert(b0, a0);
        proof {
            lemma_two_free(a0 as int, b0 as int);
            assert(used@ == none_used.update(a0 as int, true).update(b0 as int, true)
                || used@ == none_used.update(b0 as int, true).update(a0 as int, true));
            assert(used@ =~= none_used.update(a0 as int, true).update(b0 as int, true));
        }
        let ghost used2 = used@;
        let (a1, b1) = get_free_ids(&mut used, (rolls[2] as usize) % WIRE_SOCKETS, (rolls[3] as usize) % WIRE_SOCKETS);
        self.calc_color(a1, 1);
        self.calc_color(b1, 1);
        self.task.insert(a1, b1);
        self.task.insert(b1, a1);
        proof {
            let (x0, y0, x1, y1) = wire_layout(rolls);
            assert(self.task@ =~= Map::<usize, usize>::empty().insert(x0 as usize, y0 as usize).insert(
                y0 as usize,
                x0 as usize,
            ).insert(x1 as usize, y1 as usize).insert(y1 as usize, x1 as usize));
            assert(!used2[a1 as int] && !used2[b1 as int]);
            assert(is_perfect_matching(self.task@));
            assert(a0 != a1 && a0 != b1 && b0 != a1 && b0 != b1);
            assert(self.colors@[a0] == hue_of(0) && self.colors@[b0] == hue_of(0));
            assert(self.colors@[a1] == hue_of(1) && self.colors@[b1] == hue_of(1));
        }
    }

    /// Starts a new round with four numbers from the operating system's random
    /// source (see `refresh_game_with`); on `RandomError` nothing changes.
    pub fn refresh_game(&mut self) -> (res: Result<(), RandomError>)
        ensures
            res is Ok ==> is_perfect_matching(final(self).task@) && final(self).connected@ == Map::<
                usize,
                usize,
            >::empty() && wire_ends_match(final(self).task@, final(self).colors@),
            res is Ok ==> final(self).locked_id == old(self).locked_id && final(self).allow_unordered == old(
                self,
            ).allow_unordered,
            res is Ok ==> exists|rolls: [u32; 4]|
                final(self).task@ == #[trigger] dealt_task(rolls) && final(self).colors@ == dealt_colors(
                    old(self).colors@,
                    rolls,
                ),
            res is Err ==> *final(self) == *old(self),
    {
        let r0 = match random_u32() { Ok(v) => v, Err(e) => return Err(e) };
        let r1 = match random_u32() { Ok(v) => v, Err(e) => return Err(e) };
        let r2 = match random_u32() { Ok(v) => v, Err(e) => return Err(e) };
        let r3 = match random_u32() { Ok(v) => v, Err(e) => return Err(e) };
        let rolls = [r0, r1, r2, r3];
        self.refresh_game_with(rolls);
        assert(self.task@ == dealt_task(rolls));
        Ok(())
    }

    /// Picks up the wire at socket `id`.
    pub fn grab(&mut self, id: usize)
        ensures
            final(self).locked_id == Some(id),
            final(self).task@ == old(self).task@,
            final(self).colors@ == old(self).colors@,
            final(self).connected@ == old(self).connected@,
            final(self).allow_unordered == old(self).allow_unordered,
    {
        self.locked_id = Some(id);
    }

    /// Lets go of the dragged wire.
    pub fn release(&mut self)
        ensures
            final(self).locked_id is None,
            final(self).task@ == old(self).task@,
            final(self).colors@ == old(self).colors@,
            final(self).connected@ == old(self).connected@,
            final(self).allow_unordered == old(self).allow_unordered,
    {
        self.locked_id = None;
    }

    /// Drops the wire dragged from socket `from` onto socket `to`. When either
    /// socket is already wired nothing changes. Otherwise both are wired to each
    /// other, and the outcome tells whether the task paired them differently
    /// (`Wrong`), whether as many sockets were wired before as the task has
    /// (`Solved`), or neither (`Connected`).
    pub fn connect(&mut self, from: usize, to: usize) -> (outcome: ConnectOutcome)
        requires
            from != to,
        ensures
            (old(self).connected@.contains_key(to) || old(self).connected@.contains_key(from)) ==> (
            outcome == ConnectOutcome::AlreadyConnected && final(self).connected@ == old(self).connected@),
            !(old(self).connected@.contains_key(to) || old(self).connected@.contains_key(from)) ==> {
                &&& final(self).connected@ == old(self).connected@.insert(from, to).insert(to, from)
                &&& outcome == if !(old(self).task@.contains_key(from) && old(self).task@[from] == to) {
                    ConnectOutcome::Wrong
                } else if old(self).connected@.len() == old(self).task@.len() {
                    ConnectOutcome::Solved
                } else {
                    ConnectOutcome::Connected
                }
            },
            final(self).task@ == old(self).task@,
            final(self).colors@ == old(self).colors@,
            final(self).locked_id == old(self).locked_id,
            final(self).allow_unordered == old(self).allow_unordered,
            is_pairing(old(self).connected@) ==> is_pairing(final(self).connected@),
    {
        if self.connected.contains_key(&to) || self.connected.contains_key(&from) {
            return ConnectOutcome::AlreadyConnected;
        }
        let matches_task = match self.task.get(&from) {
            Some(t) => *t == to,
            None => false,
        };
        let outcome = if !matches_task {
            ConnectOutcome::Wrong
        } else if self.connected.len() == self.task.len() {
            ConnectOutcome::Solved
        } else {
            ConnectOutcome::Connected
        };
        let ghost before = self.connected@;
        self.connected.insert(from, to);
        self.connected.insert(to, from);
        proof {
            if is_pairing(before) {
                assert forall|s: usize| #[trigger] self.connected@.contains_key(s) implies self.connected@[s] != s
                    && self.connected@.contains_key(self.connected@[s]) && self.connected@[self.connected@[s]] == s by {
                    if s != from && s != to {
                        assert(before.contains_key(s));
                        assert(before[s] != from && before[s] != to);
                    }
                }
            }
        }
        outcome
    }
}

impl Default for WireMinigame {
    fn default() -> (s: Self)
        ensures
            s.locked_id is None,
            s.task@ == Map::<usize, usize>::empty(),
            s.colors@ == Map::<usize, u32>::empty(),
            s.connected@ == Map::<usize, usize>::empty(),
            s.allow_unordered,
    {
        WireMinigame {
            locked_id: None,
            task: HashMap::new(),
            colors: HashMap::new(),
            connected: HashMap::new(),
            allow_unordered: true,
        }
    }
}

} // verus!
