use vstd::prelude::*;
use itertools::Itertools;

verus! {

/// Sub-states of asset loading.
#[derive(Clone, Copy, Debug, PartialEq, Eq, Hash, Structural)]
pub enum AppLoadingAssetsSubState {
    Loading,
    Done,
}

/// `items` joined into one text, with `sep` between neighbours.
pub open spec fn joined(items: Seq<Seq<char>>, sep: Seq<char>) -> Seq<char>
    decreases items.len(),
{
    if items.len() == 0 {
        Seq::empty()
    } else if items.len() == 1 {
        items[0]
    } else {
        joined(items.drop_last(), sep) + sep + items.last()
    }
}

/// Trusted: calls itertools' `Itertools::join` on the strings of `items`, in
/// order. Its source writes the first item, then for each further item the
/// separator and the item; an empty input gives the empty string.
#[verifier::external_body]
fn join_with(items: &Vec<String>, sep: &str) -> (r: String)
    ensures
        r@ == joined(items@.map_values(|s: String| s@), sep@),
{
    items.iter().join(sep)
}

/// Named tasks that must finish before the game starts, besides loading
/// assets. A name is held at most once.
pub struct PreGameTasks {
    tasks: Vec<String>,
}

impl PreGameTasks {
    /// The pending names, in the order they were added.
    pub closed spec fn names(&self) -> Seq<Seq<char>> {
        self.tasks@.map_values(|s: String| s@)
    }

    /// The set of pending names.
    pub open spec fn pending(&self) -> Set<Seq<char>> {
        self.names().to_set()
    }

    #[verifier::type_invariant]
    closed spec fn names_distinct(&self) -> bool {
        self.names().no_duplicates()
    }

    /// No task pending.
    pub fn new() -> (t: Self)
        ensures
            t.pending() == Set::<Seq<char>>::empty(),
            t.names() == Seq::<Seq<char>>::empty(),
    {
        let t = PreGameTasks { tasks: Vec::new() };
        assert(t.names() =~= Seq::<Seq<char>>::empty());
        t
    }

    fn position(&self, task: &String) -> (r: Option<usize>)
        ensures
            match r {
                Some(i) => i < self.names().len() && self.names()[i as int] == task@,
                None => !self.names().contains(task@),
            },
    {
        let mut i: usize = 0;
        while i < self.tasks.len()
            invariant
                i <= self.tasks@.len(),
                forall|j: int| 0 <= j < i ==> self.names()[j] != task@,
            decreases self.tasks@.len() - i,
        {
            if self.tasks[i] == *task {
                return Some(i);
            }
            i += 1;
        }
        None
    }

    /// Registers a pending task (nothing changes if it is pending already).
    pub fn add(&mut self, task: String)
        ensures
            final(self).pending() == old(self).pending().insert(task@),
            old(self).pending().contains(task@) ==> final(self).names() == old(self).names(),
            !old(self).pending().contains(task@) ==> final(self).names() == old(self).names().push(task@),
    {
        proof {
            use_type_invariant(&*self);
        }
        match self.position(&task) {
            Some(_) => {
                assert(old(self).names().contains(task@));
            },
            None => {
                let ghost before = self.names();
                let mut tasks = Vec::new();
                std::mem::swap(&mut tasks, &mut self.tasks);
                tasks.push(task);
                assert(tasks@.map_values(|s: String| s@) =~= before.push(task@));
                proof {
                    assert(before.push(task@).no_duplicates()) by {
                        assert forall|a: int, b: int| 0 <= a < b < before.len() + 1 implies before.push(
                            task@,
                        )[a] != before.push(task@)[b] by {
                            if b == before.len() {
                                assert(before[a] == before.push(task@)[a]);
                            }
                        }
                    }
                }
                self.tasks = tasks;
                assert(self.names() =~= before.push(task@));
                assert(before.push(task@).to_set() =~= before.to_set().insert(task@)) by {
                    assert forall|x: Seq<char>| before.push(task@).contains(x) <==> (before.contains(x) || x
                        == task@) by {
                        if before.push(task@).contains(x) {
                            let k = choose|k: int| 0 <= k < before.len() + 1 && before.push(task@)[k] == x;
                            if k < before.len() {
                                assert(before[k] == x);
                            }
                        }
                        if before.contains(x) {
                            let k = choose|k: int| 0 <= k < before.len() && before[k] == x;
                            assert(before.push(task@)[k] == x);
                        }
                        if x == task@ {
                            assert(before.push(task@)[before.len() as int] == x);
                        }
                    }
                }
            },
        }
        assert(old(self).pending().contains(task@) ==> old(self).pending().insert(task@) =~= old(
            self,
        ).pending());
    }

    /// Marks a task as finished (nothing changes if it was not pending).
    pub fn done(&mut self, task: String)
        ensures
            final(self).pending() == old(self).pending().remove(task@),
    {
        proof {
            use_type_invariant(&*self);
        }
        match self.position(&task) {
            Some(i) => {
                let ghost before = self.names();
                let mut tasks = Vec::new();
                std::mem::swap(&mut tasks, &mut self.tasks);
                tasks.remove(i);
                let ghost after = before.remove(i as int);
                assert(tasks@.map_values(|s: String| s@) =~= after);
                proof {
                    assert forall|a: int, b: int| 0 <= a < b < after.len() implies after[a] != after[b] by {
                        let a2 = if a < i { a } else { a + 1 };
                        let b2 = if b < i { b } else { b + 1 };
                        assert(after[a] == before[a2]);
                        assert(after[b] == before[b2]);
                    }
                    assert forall|x: Seq<char>| after.contains(x) <==> (before.contains(x) && x != task@) by {
                        if after.contains(x) {
                            let k = choose|k: int| 0 <= k < after.len() && after[k] == x;
                            let k2 = if k < i { k } else { k + 1 };
                            assert(before[k2] == x);
                            assert(k2 != i);
                        }
                        if before.contains(x) && x != task@ {
                            let k = choose|k: int| 0 <= k < before.len() && before[k] == x;
                            assert(k != i);
                            let k2 = if k < i { k } else { k - 1 };
                            assert(after[k2] == x);
                        }
                    }
                    assert(after.to_set() =~= before.to_set().remove(task@));
                }
                self.tasks = tasks;
                assert(self.names() =~= after);
            },
            None => {
                assert(old(self).pending().remove(task@) =~= old(self).pending());
            },
        }
    }

    /// Whether no task is pending.
    pub fn is_empty(&self) -> (b: bool)
        ensures
            b == (self.pending() == Set::<Seq<char>>::empty()),
    {
        if self.tasks.len() == 0 {
            assert(self.names() =~= Seq::<Seq<char>>::empty());
            assert(self.pending() =~= Set::<Seq<char>>::empty());
            true
        } else {
            assert(self.pending().contains(self.names()[0]));
            false
        }
    }

    /// The pending names, one per line, in the order they were added.
    pub fn task_list(&self) -> (s: String)
        ensures
            s@ == joined(self.names(), "\n"@),
    {
        join_with(&self.tasks, "\n")
    }
}

impl Default for PreGameTasks {
    /// No task pending.
    fn default() -> (t: Self)
        ensures
            t.pending() == Set::<Seq<char>>::empty(),
            t.names() == Seq::<Seq<char>>::empty(),
    {
        PreGameTasks::new()
    }
}

/// Registering a task and then finishing it leaves it not pending and every
/// other task as it was.
pub proof fn lemma_add_then_done(pending: Set<Seq<char>>, task: Seq<char>)
    ensures
        pending.insert(task).remove(task) == pending.remove(task),
        !pending.insert(task).remove(task).contains(task),
        forall|other: Seq<char>| other != task ==> (pending.insert(task).remove(task).contains(other)
            == pending.contains(other)),
{
    assert(pending.insert(task).remove(task) =~= pending.remove(task));
}

/// What the loading screen does this frame.
pub enum LoadingStep {
    /// Everything is ready: start the game and remove the loading screen.
    EnterGame,
    /// Keep waiting and show this text.
    Show(String),
}

/// The text of the loading screen while waiting.
pub open spec fn loading_text(assets: AppLoadingAssetsSubState, names: Seq<Seq<char>>) -> Seq<char> {
    "Loading:\nAssets: "@ + (if assets == AppLoadingAssetsSubState::Done {
        "Done"@
    } else {
        "Loading"@
    }) + "\nTasks:\n"@ + joined(names, "\n"@)
}

/// The game starts once the assets are loaded and no task is pending;
/// until then the loading screen lists what is still going on.
pub fn try_translate(assets: AppLoadingAssetsSubState, tasks: &PreGameTasks) -> (step: LoadingStep)
    ensures
        (assets == AppLoadingAssetsSubState::Done && tasks.pending() == Set::<Seq<char>>::empty())
            ==> step is EnterGame,
        !(assets == AppLoadingAssetsSubState::Done && tasks.pending() == Set::<Seq<char>>::empty())
            ==> (step matches LoadingStep::Show(t) && t@ == loading_text(assets, tasks.names())),
{
    if assets == AppLoadingAssetsSubState::Done && tasks.is_empty() {
        return LoadingStep::EnterGame;
    }
    let mut text = "Loading:\nAssets: ".to_owned();
    match assets {
        AppLoadingAssetsSubState::Done => text.append("Done"),
        AppLoadingAssetsSubState::Loading => text.append("Loading"),
    }
    text.append("\nTasks:\n");
    let list = tasks.task_list();
    text.append(list.as_str());
    LoadingStep::Show(text)
}

} // verus!
