use vstd::prelude::*;
use crate::pipe_puzzle::{
    click_all, fill_trace, filled_from, lemma_scrambled_grid_is_solvable, scrambled_fill, shuffled, solved,
    GridPos, PipeMinigame, CELLS,
};
use crate::random::RandomError;

verus! {

/// The station systems that can break down.
#[derive(Clone, Copy, Debug, PartialEq, Eq, Hash, Structural)]
pub enum MalfunctionType {
    NoMalfunction,
    Reactor,
    Collision,
    Hack,
    Waves,
    Engine,
}

/// A repair attempt on a broken system, successful or not.
#[derive(Clone, Copy, Debug, PartialEq, Eq, Structural)]
pub struct Resolved {
    pub resolved_type: MalfunctionType,
    pub failed: bool,
}

/// The alarm shown for a breakdown.
#[derive(Clone, Debug)]
pub struct WarningData {
    /// `false` for a red alarm (the game is at stake), `true` for a yellow one.
    pub color: bool,
    pub text: String,
}

/// Seconds to repair the reactor, a collision course or a hacked satellite.
pub const TIME_TO_RESOLVE: u32 = 60;
/// Seconds to repair the antennas or the engine.
pub const TIME_TO_RESOLVE1: u32 = 120;

/// The systems that can break down, in the order offered for a new breakdown.
pub open spec fn all_malfunction_types() -> Seq<MalfunctionType> {
    seq![
        MalfunctionType::Reactor,
        MalfunctionType::Collision,
        MalfunctionType::Hack,
        MalfunctionType::Waves,
        MalfunctionType::Engine,
    ]
}

/// The systems not broken yet, in the order of `all_malfunction_types`.
pub open spec fn available_types(current: Seq<MalfunctionType>) -> Seq<MalfunctionType> {
    all_malfunction_types().filter(|t: MalfunctionType| !current.contains(t))
}

/// A system offered for a new breakdown is a real system that is not broken yet,
/// and adding it keeps the breakdowns recorded once each.
proof fn lemma_available_is_new(current: Seq<MalfunctionType>, k: int)
    requires
        0 <= k < available_types(current).len(),
    ensures
        available_types(current)[k] != MalfunctionType::NoMalfunction,
        !current.contains(available_types(current)[k]),
        types_ok(current) ==> types_ok(current.push(available_types(current)[k])),
{
    let pred = |t: MalfunctionType| !current.contains(t);
    let avail = available_types(current);
    all_malfunction_types().lemma_filter_pred(pred, k);
    assert(avail.contains(avail[k]));
    all_malfunction_types().lemma_filter_contains_rev(pred, avail[k]);
    if types_ok(current) {
        lemma_repair_undoes_breakdown(current, avail[k]);
    }
}

/// Whether the repair outcome `r` ends the game.
pub open spec fn ends_game_spec(r: Resolved) -> bool {
    r.failed && (r.resolved_type == MalfunctionType::Collision || r.resolved_type == MalfunctionType::Engine)
}

/// Whether this repair outcome ends the game: a failed collision avoidance or a
/// failed engine repair.
pub fn ends_game(r: &Resolved) -> (b: bool)
    ensures
        b == ends_game_spec(*r),
{
    r.failed && (r.resolved_type == MalfunctionType::Collision || r.resolved_type == MalfunctionType::Engine)
}

/// Alarm text shown when `kind` breaks down.
pub open spec fn warning_text(kind: MalfunctionType) -> Seq<char> {
    match kind {
        MalfunctionType::Reactor => "Reactor malfunctioned!"@,
        MalfunctionType::Collision => "The ship is on a trajectory to collide with debree!"@,
        MalfunctionType::Hack => "A sattelite is on a collision trajectory!"@,
        MalfunctionType::Waves => "Antenna malfunctioned!"@,
        MalfunctionType::Engine => "Engine malfunctioned!"@,
        MalfunctionType::NoMalfunction => Seq::empty(),
    }
}

/// Seconds allowed to repair a breakdown of `kind`.
pub open spec fn repair_time(kind: MalfunctionType) -> u32 {
    match kind {
        MalfunctionType::Waves | MalfunctionType::Engine => TIME_TO_RESOLVE1,
        _ => TIME_TO_RESOLVE,
    }
}

/// Frame of the small status icon of `kind` on the warning panel: the system's
/// own frame, six on when it is broken, and the blank frame `0` during the off
/// half of the blink of a broken system.
pub open spec fn mini_frame(kind: MalfunctionType, broken: bool, blink_off: bool) -> usize {
    let base: usize = match kind {
        MalfunctionType::Reactor => 2,
        MalfunctionType::Collision => 4,
        MalfunctionType::Hack => 1,
        MalfunctionType::Waves => 3,
        _ => 5,
    };
    if broken {
        if blink_off { 0 } else { (base + 6) as usize }
    } else {
        base
    }
}

/// See `mini_frame`.
pub fn warning_mini_index(kind: MalfunctionType, broken: bool, blink_off: bool) -> (r: usize)
    requires
        kind != MalfunctionType::NoMalfunction,
    ensures
        r == mini_frame(kind, broken, blink_off),
{
    let mut node_index: usize = match kind {
        MalfunctionType::NoMalfunction => 0,
        MalfunctionType::Reactor => 2,
        MalfunctionType::Collision => 4,
        MalfunctionType::Hack => 1,
        MalfunctionType::Waves => 3,
        MalfunctionType::Engine => 5,
    };
    if broken {
        node_index += 6;
        if blink_off {
            node_index = 0;
        }
    }
    node_index
}

fn contains_type(v: &Vec<MalfunctionType>, t: MalfunctionType) -> (r: bool)
    ensures
        r == v@.contains(t),
{
    let mut i: usize = 0;
    while i < v.len()
        invariant
            i <= v.len(),
            forall|j: int| 0 <= j < i ==> v@[j] != t,
        decreases v.len() - i,
    {
        if v[i] == t {
            return true;
        }
        i += 1;
    }
    false
}

/// The systems that can still break down: those not broken already, in the
/// order of `all_malfunction_types`.
pub fn available_malfunctions(current: &Vec<MalfunctionType>) -> (r: Vec<MalfunctionType>)
    ensures
        r@ == all_malfunction_types().filter(|t: MalfunctionType| !current@.contains(t)),
{
    let ghost pred = |t: MalfunctionType| !current@.contains(t);
    let all: [MalfunctionType; 5] = [
        MalfunctionType::Reactor,
        MalfunctionType::Collision,
        MalfunctionType::Hack,
        MalfunctionType::Waves,
        MalfunctionType::Engine,
    ];
    assert(all@ == all_malfunction_types());
    let mut r: Vec<MalfunctionType> = Vec::new();
    let mut i: usize = 0;
    while i < 5
        invariant
            i <= 5,
            all@ == all_malfunction_types(),
            pred == (|t: MalfunctionType| !current@.contains(t)),
            r@ == all_malfunction_types().take(i as int).filter(pred),
        decreases 5 - i,
    {
        let t = all[i];
        assert(all_malfunction_types().take(i + 1) == all_malfunction_types().take(i as int).push(t));
        proof {
            all_malfunction_types().take(i as int).lemma_filter_push(t, pred);
        }
        if !contains_type(current, t) {
            r.push(t);
        }
        i += 1;
    }
    assert(all_malfunction_types().take(5) == all_malfunction_types());
    r
}

/// Index of the first entry equal to `t`.
pub open spec fn first_index(v: Seq<MalfunctionType>, t: MalfunctionType, i: int) -> bool {
    &&& 0 <= i < v.len()
    &&& v[i] == t
    &&& forall|j: int| 0 <= j < i ==> v[j] != t
}

/// Position of the first entry equal to `t` at or after `from`; `-1` when there is none.
pub open spec fn find_first(v: Seq<MalfunctionType>, t: MalfunctionType, from: int) -> int
    decreases v.len() - from,
{
    if from < 0 || from >= v.len() {
        -1
    } else if v[from] == t {
        from
    } else {
        find_first(v, t, from + 1)
    }
}

/// Applying the repair outcomes `queue` in order to the breakdowns `v`: each
/// removes the first entry of its system, if any. Gives the breakdowns left
/// and, for each applied outcome, the position removed with the outcome.
pub open spec fn apply_repairs(v: Seq<MalfunctionType>, queue: Seq<Resolved>) -> (
    Seq<MalfunctionType>,
    Seq<(usize, Resolved)>,
)
    decreases queue.len(),
{
    if queue.len() == 0 {
        (v, Seq::empty())
    } else {
        let (left, applied) = apply_repairs(v, queue.drop_last());
        let k = find_first(left, queue.last().resolved_type, 0);
        if k >= 0 {
            (left.remove(k), applied.push((k as usize, queue.last())))
        } else {
            (left, applied)
        }
    }
}

proof fn lemma_find_first(v: Seq<MalfunctionType>, t: MalfunctionType, from: int)
    requires
        0 <= from <= v.len(),
        forall|j: int| 0 <= j < from ==> v[j] != t,
    ensures
        v.contains(t) ==> first_index(v, t, find_first(v, t, from)),
        !v.contains(t) ==> find_first(v, t, from) == -1,
    decreases v.len() - from,
{
    if from < v.len() {
        if v[from] != t {
            lemma_find_first(v, t, from + 1);
        } else {
            assert(v.contains(t));
        }
    } else {
        if v.contains(t) {
            let k = choose|k: int| 0 <= k < v.len() && v[k] == t;
            assert(v[k] != t);
        }
    }
}

/// Each applied repair removes exactly one breakdown: what is left plus what
/// was applied is what there was.
pub proof fn lemma_repairs_account(v: Seq<MalfunctionType>, queue: Seq<Resolved>)
    ensures
        apply_repairs(v, queue).0.len() + apply_repairs(v, queue).1.len() == v.len(),
        apply_repairs(v, queue).1.len() <= queue.len(),
    decreases queue.len(),
{
    if queue.len() > 0 {
        lemma_repairs_account(v, queue.drop_last());
        let (left, applied) = apply_repairs(v, queue.drop_last());
        let k = find_first(left, queue.last().resolved_type, 0);
        if k >= 0 {
            lemma_find_first(left, queue.last().resolved_type, 0);
        }
    }
}

/// A new breakdown of a system that was working keeps the record valid, and
/// repairing it (removing its first entry) gives back the record as it was.
pub proof fn lemma_repair_undoes_breakdown(v: Seq<MalfunctionType>, kind: MalfunctionType)
    requires
        types_ok(v),
        !v.contains(kind),
        kind != MalfunctionType::NoMalfunction,
    ensures
        types_ok(v.push(kind)),
        first_index(v.push(kind), kind, v.len() as int),
        v.push(kind).remove(v.len() as int) == v,
{
    let w = v.push(kind);
    assert forall|i: int, j: int| 0 <= i < j < w.len() implies w[i] != w[j] by {
        if j == v.len() {
            assert(v.contains(w[i]) ==> w[i] != kind);
            assert(v[i] == w[i]);
        }
    }
    if w.contains(MalfunctionType::NoMalfunction) {
        let k = choose|k: int| 0 <= k < w.len() && w[k] == MalfunctionType::NoMalfunction;
        assert(k < v.len());
        assert(v[k] == w[k]);
    }
    assert forall|j: int| 0 <= j < v.len() implies w[j] != kind by {
        assert(v[j] == w[j]);
    }
    assert(w.remove(v.len() as int) =~= v);
}

/// What the station knows about its breakdowns.
pub struct Malfunction {
    /// Whether the station is in trouble (set when a breakdown is drawn,
    /// cleared when the last one is repaired).
    pub in_progress: bool,
    /// The broken systems, oldest first.
    pub malfunction_types: Vec<MalfunctionType>,
    /// Every alarm raised so far, oldest first.
    pub warning_data: Vec<WarningData>,
    /// Repair outcomes waiting to be applied.
    pub resolved: Vec<Resolved>,
    /// Whether the last draw added a breakdown (the alarm has not sounded yet).
    pub added_new_malfunction: bool,
}

/// Breakdowns are recorded once each, and never as `NoMalfunction`.
pub open spec fn types_ok(v: Seq<MalfunctionType>) -> bool {
    &&& !v.contains(MalfunctionType::NoMalfunction)
    &&& forall|i: int, j: int| 0 <= i < j < v.len() ==> v[i] != v[j]
}

impl Malfunction {
    /// No breakdown, no alarm, no queued repair.
    pub fn new() -> (m: Self)
        ensures
            !m.in_progress,
            m.malfunction_types@.len() == 0,
            m.warning_data@.len() == 0,
            m.resolved@.len() == 0,
            !m.added_new_malfunction,
    {
        Malfunction {
            in_progress: false,
            malfunction_types: Vec::new(),
            warning_data: Vec::new(),
            resolved: Vec::new(),
            added_new_malfunction: false,
        }
    }

    /// Removes the breakdown that `r` repairs. Returns the position it had (the
    /// caller drops the repair timer at the same position), or `None` when that
    /// system is not broken.
    pub fn remove_resolved(&mut self, r: &Resolved) -> (index: Option<usize>)
        ensures
            match index {
                Some(i) => first_index(old(self).malfunction_types@, r.resolved_type, i as int)
                    && final(self).malfunction_types@ == old(self).malfunction_types@.remove(i as int),
                None => !old(self).malfunction_types@.contains(r.resolved_type) && final(self).malfunction_types@
                    == old(self).malfunction_types@,
            },
            final(self).resolved@ == old(self).resolved@,
            final(self).in_progress == old(self).in_progress,
            final(self).added_new_malfunction == old(self).added_new_malfunction,
            final(self).warning_data@ == old(self).warning_data@,
            types_ok(old(self).malfunction_types@) ==> types_ok(final(self).malfunction_types@),
    {
        let mut i: usize = 0;
        while i < self.malfunction_types.len()
            invariant
                i <= self.malfunction_types@.len(),
                self.malfunction_types@ == old(self).malfunction_types@,
                self.resolved@ == old(self).resolved@,
                self.in_progress == old(self).in_progress,
                self.added_new_malfunction == old(self).added_new_malfunction,
                self.warning_data@ == old(self).warning_data@,
                forall|j: int| 0 <= j < i ==> self.malfunction_types@[j] != r.resolved_type,
            decreases self.malfunction_types@.len() - i,
        {
            if self.malfunction_types[i] == r.resolved_type {
                let ghost before = self.malfunction_types@;
                self.malfunction_types.remove(i);
                proof {
                    if types_ok(before) {
                        assert forall|a: int, b: int| 0 <= a < b < self.malfunction_types@.len() implies self.malfunction_types@[a]
                            != self.malfunction_types@[b] by {
                            let a2 = if a < i { a } else { a + 1 };
                            let b2 = if b < i { b } else { b + 1 };
                            assert(self.malfunction_types@[a] == before[a2]);
                            assert(self.malfunction_types@[b] == before[b2]);
                        }
                        if self.malfunction_types@.contains(MalfunctionType::NoMalfunction) {
                            let k = choose|k: int| 0 <= k < self.malfunction_types@.len() && self.malfunction_types@[k] == MalfunctionType::NoMalfunction;
                            let k2 = if k < i { k } else { k + 1 };
                            assert(before[k2] == MalfunctionType::NoMalfunction);
                        }
                    }
                }
                return Some(i);
            }
            i += 1;
        }
        None
    }

    /// Applies every queued repair outcome in order: each removes its breakdown
    /// (outcomes for systems that are not broken are skipped). Returns, for each
    /// applied outcome, the position its breakdown had at removal time, with the
    /// outcome. The queue is emptied, and when no breakdown is left the station
    /// is no longer in trouble.
    pub fn resolve_malfunctions(&mut self) -> (applied: Vec<(usize, Resolved)>)
        ensures
            old(self).resolved@.len() > 0 ==> {
                &&& final(self).resolved@.len() == 0
                &&& (final(self).malfunction_types@, applied@) == apply_repairs(
                    old(self).malfunction_types@,
                    old(self).resolved@,
                )
                &&& final(self).malfunction_types@.len() == 0 ==> !final(self).in_progress
                &&& final(self).malfunction_types@.len() > 0 ==> final(self).in_progress == old(self).in_progress
            },
            old(self).resolved@.len() == 0 ==> *final(self) == *old(self) && applied@.len() == 0,
            types_ok(old(self).malfunction_types@) ==> types_ok(final(self).malfunction_types@),
            final(self).added_new_malfunction == old(self).added_new_malfunction,
            final(self).warning_data@ == old(self).warning_data@,
    {
        let mut applied: Vec<(usize, Resolved)> = Vec::new();
        if self.resolved.len() == 0 {
            return applied;
        }
        let ghost start_types = self.malfunction_types@;
        let ghost queue = self.resolved@;
        let mut k: usize = 0;
        while k < self.resolved.len()
            invariant
                k <= self.resolved@.len(),
                self.resolved@ == queue,
                self.in_progress == old(self).in_progress,
                self.added_new_malfunction == old(self).added_new_malfunction,
                self.warning_data@ == old(self).warning_data@,
                start_types == old(self).malfunction_types@,
                (self.malfunction_types@, applied@) == apply_repairs(start_types, queue.take(k as int)),
                types_ok(start_types) ==> types_ok(self.malfunction_types@),
            decreases self.resolved@.len() - k,
        {
            let r = self.resolved[k];
            let ghost before = self.malfunction_types@;
            assert(queue.take(k + 1).drop_last() =~= queue.take(k as int));
            proof {
                lemma_find_first(before, r.resolved_type, 0);
            }
            match self.remove_resolved(&r) {
                Some(i) => {
                    applied.push((i, r));
                },
                None => {},
            }
            k += 1;
        }
        assert(queue.take(k as int) =~= queue);
        self.resolved = Vec::new();
        if self.malfunction_types.len() == 0 {
            self.in_progress = false;
        }
        applied
    }

    /// Starts a breakdown of `kind`: records it with its alarm text, and for the
    /// engine scrambles the pipe puzzle anew. Returns the seconds allowed for the
    /// repair, or `RandomError` when scrambling the puzzle needed random numbers
    /// that the source did not give (the breakdown is recorded all the same).
    pub fn start_malfunction(&mut self, kind: MalfunctionType, pipes: &mut PipeMinigame) -> (r: Result<
        u32,
        RandomError,
    >)
        requires
            kind != MalfunctionType::NoMalfunction,
            old(pipes).wf(),
        ensures
            final(self).malfunction_types@ == old(self).malfunction_types@.push(kind),
            final(self).warning_data@.len() == old(self).warning_data@.len() + 1,
            final(self).warning_data@.last().color == (kind != MalfunctionType::Collision && kind
                != MalfunctionType::Engine),
            final(self).warning_data@.last().text@ == warning_text(kind),
            forall|i: int| 0 <= i < old(self).warning_data@.len() ==> final(self).warning_data@[i] == old(self).warning_data@[i],
            r matches Ok(t) ==> t == repair_time(kind),
            kind != MalfunctionType::Engine ==> r is Ok,
            final(pipes).wf(),
            kind != MalfunctionType::Engine ==> final(pipes)@ == old(pipes)@,
            kind == MalfunctionType::Engine && r is Ok ==> scrambled_fill(old(pipes)@, final(pipes)@),
            kind == MalfunctionType::Engine && r is Ok && (forall|i: int| 0 <= i < CELLS ==> old(pipes)@[i] is None)
                ==> exists|clicks: Seq<GridPos>| #[trigger] solved(click_all(final(pipes)@, clicks)),
            final(self).resolved@ == old(self).resolved@,
            final(self).in_progress == old(self).in_progress,
            final(self).added_new_malfunction == old(self).added_new_malfunction,
    {
        self.malfunction_types.push(kind);
        let mut outcome: Result<u32, RandomError> = Ok(TIME_TO_RESOLVE);
        match kind {
            MalfunctionType::Reactor => {
                self.warning_data.push(WarningData { color: true, text: "Reactor malfunctioned!".to_owned() });
            },
            MalfunctionType::Collision => {
                self.warning_data.push(
                    WarningData {
                        color: false,
                        text: "The ship is on a trajectory to collide with debree!".to_owned(),
                    },
                );
            },
            MalfunctionType::Hack => {
                self.warning_data.push(
                    WarningData { color: true, text: "A sattelite is on a collision trajectory!".to_owned() },
                );
            },
            MalfunctionType::Waves => {
                self.warning_data.push(WarningData { color: true, text: "Antenna malfunctioned!".to_owned() });
                outcome = Ok(TIME_TO_RESOLVE1);
            },
            MalfunctionType::Engine => {
                let ghost before = pipes@;
                let filled = pipes.fill_solved();
                let ghost g = pipes@;
                proof {
                    pipes.lemma_wf_view();
                    if filled is Ok {
                        let (fr, fo) = choose|fr: Seq<u32>, fo: Seq<(int, int)>|
                            fr.len() == 3 + CELLS && #[trigger] fill_trace(before, g, fr, fo);
                        assert(fill_trace(before, g, fr, fo));
                        assert(filled_from(before, g));
                    }
                }
                let turned = pipes.shuffle();
                proof {
                    pipes.lemma_wf_view();
                    if filled is Ok && turned is Ok {
                        let rolls = choose|rolls: Seq<u32>| rolls.len() == CELLS && pipes@ == #[trigger] shuffled(g, rolls);
                        assert(pipes@ == shuffled(g, rolls));
                        assert(scrambled_fill(before, pipes@));
                        if forall|i: int| 0 <= i < CELLS ==> before[i] is None {
                            lemma_scrambled_grid_is_solvable(g, pipes@);
                            let clicks = choose|clicks: Seq<GridPos>|
                                #[trigger] click_all(pipes@, clicks) == g && solved(click_all(pipes@, clicks));
                            assert(solved(click_all(pipes@, clicks)));
                        }
                    }
                }
                self.warning_data.push(WarningData { color: false, text: "Engine malfunctioned!".to_owned() });
                outcome = match (filled, turned) {
                    (Err(e), _) => Err(e),
                    (_, Err(e)) => Err(e),
                    _ => Ok(TIME_TO_RESOLVE1),
                };
            },
            MalfunctionType::NoMalfunction => {},
        }
        outcome
    }

    /// Decides the next breakdown: the station is in trouble from now on, and
    /// among the systems not broken yet (in the order of
    /// `all_malfunction_types`) the one at position `index` is returned.
    /// `None` when every system is broken already. `added_new_malfunction`
    /// records whether one was picked. Nothing else changes.
    pub fn choose_malfunction_at(&mut self, index: usize) -> (picked: Option<MalfunctionType>)
        requires
            available_types(old(self).malfunction_types@).len() > 0 ==> index < available_types(
                old(self).malfunction_types@,
            ).len(),
        ensures
            final(self).in_progress,
            final(self).malfunction_types@ == old(self).malfunction_types@,
            final(self).warning_data@ == old(self).warning_data@,
            final(self).resolved@ == old(self).resolved@,
            final(self).added_new_malfunction == (picked is Some),
            available_types(old(self).malfunction_types@).len() == 0 ==> picked is None,
            available_types(old(self).malfunction_types@).len() > 0 ==> picked == Some(
                available_types(old(self).malfunction_types@)[index as int],
            ),
    {
        self.in_progress = true;
        let available = available_malfunctions(&self.malfunction_types);
        if available.len() == 0 {
            self.added_new_malfunction = false;
            return None;
        }
        self.added_new_malfunction = true;
        Some(available[index])
    }

    /// One breakdown step of the station, once the debris has struck: decides
    /// the breakdown with `choose_malfunction_at(index)` and, when a system was
    /// picked, starts it with `start_malfunction`. Returns the system and the
    /// seconds allowed for its repair, `None` when every system was broken
    /// already, or `RandomError` when the engine puzzle could not be built (the
    /// breakdown is recorded all the same).
    pub fn break_down(&mut self, index: usize, pipes: &mut PipeMinigame) -> (r: Result<
        Option<(MalfunctionType, u32)>,
        RandomError,
    >)
        requires
            available_types(old(self).malfunction_types@).len() > 0 ==> index < available_types(
                old(self).malfunction_types@,
            ).len(),
            old(pipes).wf(),
        ensures
            final(self).in_progress,
            final(pipes).wf(),
            final(self).resolved@ == old(self).resolved@,
            types_ok(old(self).malfunction_types@) ==> types_ok(final(self).malfunction_types@),
            available_types(old(self).malfunction_types@).len() == 0 ==> {
                &&& r == Ok::<Option<(MalfunctionType, u32)>, RandomError>(None)
                &&& !final(self).added_new_malfunction
                &&& final(self).malfunction_types@ == old(self).malfunction_types@
                &&& final(self).warning_data@ == old(self).warning_data@
                &&& final(pipes)@ == old(pipes)@
            },
            available_types(old(self).malfunction_types@).len() > 0 ==> {
                let kind = available_types(old(self).malfunction_types@)[index as int];
                &&& kind != MalfunctionType::NoMalfunction
                &&& !old(self).malfunction_types@.contains(kind)
                &&& final(self).added_new_malfunction
                &&& final(self).malfunction_types@ == old(self).malfunction_types@.push(kind)
                &&& final(self).warning_data@.len() == old(self).warning_data@.len() + 1
                &&& final(self).warning_data@.last().text@ == warning_text(kind)
                &&& (r is Ok ==> r == Ok::<Option<(MalfunctionType, u32)>, RandomError>(
                    Some((kind, repair_time(kind))),
                ))
                &&& (kind != MalfunctionType::Engine ==> r is Ok && final(pipes)@ == old(pipes)@)
                &&& (kind == MalfunctionType::Engine && r is Ok ==> scrambled_fill(old(pipes)@, final(pipes)@))
            },
    {
        let ghost before = self.malfunction_types@;
        let picked = self.choose_malfunction_at(index);
        match picked {
            None => Ok(None),
            Some(kind) => {
                proof {
                    lemma_available_is_new(before, index as int);
                }
                match self.start_malfunction(kind, pipes) {
                    Ok(t) => Ok(Some((kind, t))),
                    Err(e) => Err(e),
                }
            },
        }
    }

    /// The alarm line of the warning console: the latest alarm while the
    /// station is in trouble, else "No Malfunctions".
    pub fn warning_line(&self) -> (s: String)
        requires
            self.in_progress ==> self.warning_data@.len() > 0,
        ensures
            self.in_progress ==> s@ == self.warning_data@.last().text@,
            !self.in_progress ==> s@ == "No Malfunctions"@,
    {
        if self.in_progress {
            self.warning_data[self.warning_data.len() - 1].text.clone()
        } else {
            "No Malfunctions".to_owned()
        }
    }

    /// Whether `kind` is broken.
    pub fn has(&self, kind: MalfunctionType) -> (b: bool)
        ensures
            b == self.malfunction_types@.contains(kind),
    {
        contains_type(&self.malfunction_types, kind)
    }

    /// Whether the alarm is to sound this frame: the record changed, the
    /// station is in trouble and a new breakdown was added; sounding it
    /// clears the new-breakdown flag.
    pub fn take_alarm(&mut self, changed: bool) -> (sound: bool)
        ensures
            sound == (changed && old(self).in_progress && old(self).added_new_malfunction),
            final(self).added_new_malfunction == (old(self).added_new_malfunction && !sound),
            final(self).in_progress == old(self).in_progress,
            final(self).malfunction_types@ == old(self).malfunction_types@,
            final(self).resolved@ == old(self).resolved@,
            final(self).warning_data@ == old(self).warning_data@,
    {
        if changed && self.in_progress && self.added_new_malfunction {
            self.added_new_malfunction = false;
            true
        } else {
            false
        }
    }

    /// Marks the breakdown at position `idx` as failed because its repair time ran out.
    pub fn fail_by_timeout(&mut self, idx: usize)
        requires
            idx < old(self).malfunction_types@.len(),
        ensures
            final(self).resolved@ == old(self).resolved@.push(
                Resolved { resolved_type: old(self).malfunction_types@[idx as int], failed: true },
            ),
            final(self).malfunction_types@ == old(self).malfunction_types@,
            final(self).in_progress == old(self).in_progress,
    {
        let resolved_type = self.malfunction_types[idx];
        self.resolved.push(Resolved { resolved_type, failed: true });
    }
}

/// Which repair outcomes end the game: a successful repair never does; a
/// failed repair ends it for the collision course and the engine, and never
/// for the reactor, the satellite hack or the antennas.
pub proof fn lemma_game_end_outcomes(kind: MalfunctionType, failed: bool)
    ensures
        !failed ==> !ends_game_spec(Resolved { resolved_type: kind, failed }),
        failed && kind == MalfunctionType::Collision ==> ends_game_spec(Resolved { resolved_type: kind, failed }),
        failed && kind == MalfunctionType::Engine ==> ends_game_spec(Resolved { resolved_type: kind, failed }),
        kind == MalfunctionType::Reactor ==> !ends_game_spec(Resolved { resolved_type: kind, failed }),
        kind == MalfunctionType::Hack ==> !ends_game_spec(Resolved { resolved_type: kind, failed }),
        kind == MalfunctionType::Waves ==> !ends_game_spec(Resolved { resolved_type: kind, failed }),
        kind == MalfunctionType::NoMalfunction ==> !ends_game_spec(Resolved { resolved_type: kind, failed }),
{
}

} // verus!
