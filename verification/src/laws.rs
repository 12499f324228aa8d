//! What holds of every run: statements about the commands of a sequence
//! of requests, proved from the definitions in `manager`.

use crate::date::{date_prefix_of, lemma_iso_text_round_trip, CalendarDate};
use crate::filesearch::{
    folder_date, is_dated, is_source, lemma_scan_of_single_date, lemma_scan_without_date,
    scanned_targets, FolderEntry, TargetType,
};
use crate::manager::{
    is_blocked, is_inside, moves_of, start_of, CommandsView, Manager, Request, SourceListing,
    State, Targets,
};
use crate::path::{file_name_of, joined, lemma_file_name_is_plain, lemma_file_name_of_joined};
use vstd::prelude::*;

verus! {

/// The commands move a file to the given destination.
pub open spec fn moves_to(c: CommandsView, destination: Seq<char>) -> bool {
    match c.move_file {
        Some(m) => m.1 == destination,
        None => false,
    }
}

/// The destination of the move, where there is one.
pub open spec fn move_target(c: CommandsView) -> Seq<char> {
    match c.move_file {
        Some(m) => m.1,
        None => Seq::empty(),
    }
}

/// One of the first `n` items moves a file to the given destination.
pub open spec fn moved_before(commands: Seq<CommandsView>, n: int, destination: Seq<char>) -> bool {
    exists|i: int| 0 <= i < n && i < commands.len() && moves_to(#[trigger] commands[i], destination)
}

/// A path is the source of one of the moves.
pub open spec fn is_moved_from(moves: Seq<(Seq<char>, Seq<char>)>, path: Seq<char>) -> bool {
    exists|i: int| 0 <= i < moves.len() && (#[trigger] moves[i]).0 == path
}

/// A path is the destination of one of the moves.
pub open spec fn is_moved_to(moves: Seq<(Seq<char>, Seq<char>)>, path: Seq<char>) -> bool {
    exists|i: int| 0 <= i < moves.len() && (#[trigger] moves[i]).1 == path
}

/// The paths at which something stands once the moves have been carried
/// out: what stood there before and was not moved away, and what was
/// moved there.
pub open spec fn existing_after(
    existing: Set<Seq<char>>,
    moves: Seq<(Seq<char>, Seq<char>)>,
) -> Set<Seq<char>> {
    Set::new(
        |path: Seq<char>|
            (existing.contains(path) && !is_moved_from(moves, path)) || is_moved_to(moves, path),
    )
}

/// Every move of `moves_of` is the move of one of the commands.
pub proof fn lemma_move_has_command(commands: Seq<CommandsView>, k: int)
    requires
        0 <= k < moves_of(commands).len(),
    ensures
        exists|i: int|
            0 <= i < commands.len() && (#[trigger] commands[i]).move_file == Some(
                moves_of(commands)[k],
            ),
    decreases commands.len(),
{
    let rest = commands.drop_last();
    let n = commands.len() - 1;
    assert(commands[n] == commands.last());
    if k < moves_of(rest).len() {
        lemma_move_has_command(rest, k);
        let i = choose|i: int|
            0 <= i < rest.len() && (#[trigger] rest[i]).move_file == Some(moves_of(rest)[k]);
        assert(commands[i] == rest[i]);
    }
}

/// The move of every command is among `moves_of`.
pub proof fn lemma_command_move_is_listed(commands: Seq<CommandsView>, i: int)
    requires
        0 <= i < commands.len(),
        commands[i].move_file is Some,
    ensures
        exists|k: int|
            0 <= k < moves_of(commands).len() && Some(#[trigger] moves_of(commands)[k])
                == commands[i].move_file,
    decreases commands.len(),
{
    let rest = commands.drop_last();
    let n = commands.len() - 1;
    assert(commands[n] == commands.last());
    if i < n {
        assert(rest[i] == commands[i]);
        lemma_command_move_is_listed(rest, i);
        let k = choose|k: int|
            0 <= k < moves_of(rest).len() && Some(#[trigger] moves_of(rest)[k])
                == rest[i].move_file;
        assert(moves_of(commands)[k] == moves_of(rest)[k]);
    } else {
        let k = moves_of(rest).len() as int;
        assert(Some(moves_of(commands)[k]) == commands[i].move_file);
    }
}

/// Commands without a move give no moves.
pub proof fn lemma_no_moves(commands: Seq<CommandsView>)
    requires
        forall|i: int| 0 <= i < commands.len() ==> (#[trigger] commands[i]).move_file is None,
    ensures
        moves_of(commands) == Seq::<(Seq<char>, Seq<char>)>::empty(),
    decreases commands.len(),
{
    if commands.len() > 0 {
        let rest = commands.drop_last();
        assert(forall|i: int| 0 <= i < rest.len() ==> rest[i] == commands[i]);
        lemma_no_moves(rest);
        assert(commands[commands.len() - 1] == commands.last());
    }
}

/// Where no two commands move to one destination, no two moves of
/// `moves_of` end at one destination.
pub proof fn lemma_moves_stay_distinct(commands: Seq<CommandsView>)
    requires
        forall|i: int, j: int|
            0 <= i < j < commands.len() && (#[trigger] commands[i]).move_file is Some ==> !moves_to(
                #[trigger] commands[j],
                move_target(commands[i]),
            ),
    ensures
        forall|a: int, b: int|
            0 <= a < b < moves_of(commands).len() ==> (#[trigger] moves_of(commands)[a]).1 != (
            #[trigger] moves_of(commands)[b]).1,
    decreases commands.len(),
{
    if commands.len() > 0 {
        let rest = commands.drop_last();
        let n = commands.len() - 1;
        assert(commands[n] == commands.last());
        assert forall|i: int, j: int|
            0 <= i < j < rest.len() && (#[trigger] rest[i]).move_file is Some implies !moves_to(
            #[trigger] rest[j],
            move_target(rest[i]),
        ) by {
            assert(rest[i] == commands[i] && rest[j] == commands[j]);
        }
        lemma_moves_stay_distinct(rest);
        let moves = moves_of(commands);
        assert forall|a: int, b: int| 0 <= a < b < moves.len() implies (#[trigger] moves[a]).1 != (
        #[trigger] moves[b]).1 by {
            if b < moves_of(rest).len() {
                assert(moves[a] == moves_of(rest)[a] && moves[b] == moves_of(rest)[b]);
            } else {
                lemma_move_has_command(rest, a);
                let i = choose|i: int|
                    0 <= i < rest.len() && (#[trigger] rest[i]).move_file == Some(
                        moves_of(rest)[a],
                    );
                assert(commands[i] == rest[i]);
                assert(moves[a] == moves_of(rest)[a]);
                assert(!moves_to(commands[n], move_target(commands[i])));
            }
        }
    }
}

/// A date keeps to one directory from one listing to the next.
///
/// Each listing holds at most one directory of the date. A directory of
/// the date that was there is still there under its name, with its raw
/// folder if it had one. What is new is what a run creates: a directory
/// named by the date alone, or the raw folder in such a directory.
pub open spec fn keeps_one_directory(
    before: Seq<FolderEntry>,
    after: Seq<FolderEntry>,
    date: CalendarDate,
) -> bool {
    &&& forall|i: int, j: int|
        0 <= i < before.len() && 0 <= j < before.len() && is_dated(#[trigger] before[i], date)
            && is_dated(#[trigger] before[j], date) ==> i == j
    &&& forall|i: int, j: int|
        0 <= i < after.len() && 0 <= j < after.len() && is_dated(#[trigger] after[i], date)
            && is_dated(#[trigger] after[j], date) ==> i == j
    &&& forall|i: int|
        0 <= i < before.len() && is_dated(#[trigger] before[i], date) ==> exists|j: int|
            0 <= j < after.len() && is_dated(#[trigger] after[j], date) && after[j].name@
                == before[i].name@ && (before[i].has_raw_folder ==> after[j].has_raw_folder) && (
            after[j].has_raw_folder && !before[i].has_raw_folder ==> after[j].name@
                == date.text())
    &&& forall|j: int|
        0 <= j < after.len() && is_dated(#[trigger] after[j], date) ==> after[j].name@
            == date.text() || exists|i: int|
            0 <= i < before.len() && is_dated(#[trigger] before[i], date)
}

impl Manager {
    /// The key of a request.
    pub open spec fn key_of(&self, r: Request) -> TargetType {
        self.key_for(r.f_type, r.date)
    }

    /// The request names a file and is filed under `key`.
    pub open spec fn asks_for(&self, r: Request, key: TargetType) -> bool {
        file_name_of(r.path) is Some && self.key_of(r) == key
    }

    /// One of the first `n` requests names a file and is filed under `key`.
    pub open spec fn seen(&self, requests: Seq<Request>, n: int, key: TargetType) -> bool {
        exists|i: int| 0 <= i < n && i < requests.len() && self.asks_for(#[trigger] requests[i], key)
    }

    /// Where a request's file goes, given the map at the start of the run.
    pub open spec fn destination_for(&self, targets: Targets, r: Request) -> Option<Seq<char>> {
        self.destination_of(targets, r.path, r.f_type, r.date)
    }

    /// Resolving a sequence of keys, one after the other: the directory
    /// and the flag of each call, and the map after them.
    pub open spec fn resolve_all(&self, targets: Targets, keys: Seq<TargetType>) -> (
        Targets,
        Seq<(Seq<char>, bool)>,
    )
        decreases keys.len(),
    {
        if keys.len() == 0 {
            (targets, Seq::empty())
        } else {
            let (before, out) = self.resolve_all(targets, keys.drop_last());
            let key = keys.last();
            (
                self.resolved_targets(before, key),
                out.push((self.resolved_path(before, key), !before.contains_key(key))),
            )
        }
    }

    /// Resolving never rebinds a key: after any sequence of calls every key
    /// resolves to the directory that it resolved to at the start, and the
    /// keys that are bound are those that were bound or have been asked for.
    pub proof fn law_resolving_is_stable(&self, targets: Targets, keys: Seq<TargetType>)
        ensures
            self.resolve_all(targets, keys).1.len() == keys.len(),
            forall|k: TargetType|
                #![trigger self.resolved_path(self.resolve_all(targets, keys).0, k)]
                self.resolved_path(self.resolve_all(targets, keys).0, k) == self.resolved_path(
                    targets,
                    k,
                ),
            forall|k: TargetType|
                #![trigger self.resolve_all(targets, keys).0.contains_key(k)]
                self.resolve_all(targets, keys).0.contains_key(k) <==> targets.contains_key(k)
                    || keys.contains(k),
        decreases keys.len(),
    {
        if keys.len() > 0 {
            let rest = keys.drop_last();
            self.law_resolving_is_stable(targets, rest);
            let before = self.resolve_all(targets, rest).0;
            let last = keys.last();
            assert(keys[keys.len() - 1] == last);
            assert forall|k: TargetType|
                #![trigger self.resolve_all(targets, keys).0.contains_key(k)]
                self.resolve_all(targets, keys).0.contains_key(k) <==> targets.contains_key(k)
                    || keys.contains(k) by {
                assert(before.contains_key(k) <==> targets.contains_key(k) || rest.contains(k));
                if keys.contains(k) {
                    let i = choose|i: int| 0 <= i < keys.len() && keys[i] == k;
                    if i < rest.len() {
                        assert(rest[i] == k);
                    }
                }
                if rest.contains(k) {
                    let i = choose|i: int| 0 <= i < rest.len() && rest[i] == k;
                    assert(keys[i] == k);
                }
            }
            assert forall|k: TargetType|
                #![trigger self.resolved_path(self.resolve_all(targets, keys).0, k)]
                self.resolved_path(self.resolve_all(targets, keys).0, k) == self.resolved_path(
                    targets,
                    k,
                ) by {
                assert(self.resolved_path(before, k) == self.resolved_path(targets, k));
                assert(self.resolved_path(before, last) == self.resolved_path(targets, last));
            }
        }
    }

    /// The outcome of the call at position `i` in a sequence of calls.
    pub proof fn lemma_resolve_at(&self, targets: Targets, keys: Seq<TargetType>, i: int)
        requires
            0 <= i < keys.len(),
        ensures
            self.resolve_all(targets, keys).1.len() == keys.len(),
            self.resolve_all(targets, keys).1[i] == (
                self.resolved_path(self.resolve_all(targets, keys.take(i)).0, keys[i]),
                !self.resolve_all(targets, keys.take(i)).0.contains_key(keys[i]),
            ),
        decreases keys.len(),
    {
        self.law_resolving_is_stable(targets, keys);
        let rest = keys.drop_last();
        self.law_resolving_is_stable(targets, rest);
        if i == keys.len() - 1 {
            assert(keys.take(i) =~= rest);
        } else {
            self.lemma_resolve_at(targets, rest, i);
            assert(rest.take(i) =~= keys.take(i));
        }
    }

    /// All callers that resolve the same key receive the same directory,
    /// whatever the order of the calls, and exactly the first caller of a
    /// key that was free at the start is told that it made the binding.
    pub proof fn law_first_caller_creates(&self, targets: Targets, keys: Seq<TargetType>, i: int)
        requires
            0 <= i < keys.len(),
        ensures
            self.resolve_all(targets, keys).1.len() == keys.len(),
            self.resolve_all(targets, keys).1[i].0 == self.resolved_path(targets, keys[i]),
            self.resolve_all(targets, keys).1[i].1 == (!targets.contains_key(keys[i])
                && !keys.take(i).contains(keys[i])),
    {
        self.lemma_resolve_at(targets, keys, i);
        let front = keys.take(i);
        self.law_resolving_is_stable(targets, front);
        let before = self.resolve_all(targets, front).0;
        assert(self.resolved_path(before, keys[i]) == self.resolved_path(targets, keys[i]));
        assert(before.contains_key(keys[i]) <==> targets.contains_key(keys[i]) || front.contains(
            keys[i],
        ));
    }

    /// Any number of calls for one key that was free at the start: every
    /// call returns the same directory, the first call alone returns the
    /// flag.
    pub proof fn law_one_creator_among_many(&self, targets: Targets, key: TargetType, n: nat)
        requires
            !targets.contains_key(key),
        ensures
            ({
                let out = self.resolve_all(targets, Seq::new(n, |i: int| key)).1;
                &&& out.len() == n
                &&& forall|i: int| 0 <= i < n ==> (#[trigger] out[i]).0 == self.target_path(key)
                &&& forall|i: int| 0 <= i < n ==> (#[trigger] out[i]).1 == (i == 0)
            }),
    {
        let keys = Seq::new(n, |i: int| key);
        let out = self.resolve_all(targets, keys).1;
        self.law_resolving_is_stable(targets, keys);
        assert forall|i: int| 0 <= i < n implies (#[trigger] out[i]).0 == self.target_path(key)
            && out[i].1 == (i == 0) by {
            self.law_first_caller_creates(targets, keys, i);
            if i > 0 {
                assert(keys.take(i)[0] == key);
            }
        }
    }

    /// The state after a sequence of requests. Every key resolves as at the
    /// start; the bound keys are those bound at the start and those of the
    /// requests that name a file; the claimed destinations are those
    /// claimed at the start and those of the moves.
    pub proof fn law_run_keeps_directories(&self, state: State, requests: Seq<Request>)
        ensures
            self.commands_of(state, requests).1.len() == requests.len(),
            forall|k: TargetType|
                #![trigger self.resolved_path(self.commands_of(state, requests).0.targets, k)]
                self.resolved_path(self.commands_of(state, requests).0.targets, k)
                    == self.resolved_path(state.targets, k),
            forall|k: TargetType|
                #![trigger self.commands_of(state, requests).0.targets.contains_key(k)]
                self.commands_of(state, requests).0.targets.contains_key(k)
                    <==> state.targets.contains_key(k) || self.seen(
                    requests,
                    requests.len() as int,
                    k,
                ),
            forall|d: Seq<char>|
                #![trigger self.commands_of(state, requests).0.planned.contains(d)]
                self.commands_of(state, requests).0.planned.contains(d) <==> state.planned.contains(
                    d,
                ) || moved_before(self.commands_of(state, requests).1, requests.len() as int, d),
        decreases requests.len(),
    {
        if requests.len() > 0 {
            let rest = requests.drop_last();
            self.law_run_keeps_directories(state, rest);
            let before = self.commands_of(state, rest).0;
            let earlier = self.commands_of(state, rest).1;
            let commands = self.commands_of(state, requests).1;
            let last = requests.last();
            let n = requests.len() as int;
            assert(requests[n - 1] == last);
            assert(commands[n - 1] == self.step(before, last).1);
            assert(forall|i: int| 0 <= i < n - 1 ==> commands[i] == earlier[i]);
            let last_key = self.key_of(last);
            assert(self.commands_of(state, requests).0.targets == if file_name_of(last.path)
                is Some {
                self.resolved_targets(before.targets, last_key)
            } else {
                before.targets
            });
            assert forall|k: TargetType|
                #![trigger self.commands_of(state, requests).0.targets.contains_key(k)]
                self.commands_of(state, requests).0.targets.contains_key(k)
                    <==> state.targets.contains_key(k) || self.seen(requests, n, k) by {
                assert(before.targets.contains_key(k) <==> state.targets.contains_key(k)
                    || self.seen(rest, n - 1, k));
                if self.seen(rest, n - 1, k) {
                    let i = choose|i: int|
                        0 <= i < n - 1 && i < rest.len() && self.asks_for(#[trigger] rest[i], k);
                    assert(requests[i] == rest[i]);
                    assert(self.asks_for(requests[i], k));
                }
                if self.seen(requests, n, k) {
                    let i = choose|i: int|
                        0 <= i < n && i < requests.len() && self.asks_for(
                            #[trigger] requests[i],
                            k,
                        );
                    if i < n - 1 {
                        assert(rest[i] == requests[i]);
                        assert(self.asks_for(rest[i], k));
                    }
                }
                if self.asks_for(last, k) {
                    assert(self.asks_for(requests[n - 1], k));
                }
            }
            assert forall|k: TargetType|
                #![trigger self.resolved_path(self.commands_of(state, requests).0.targets, k)]
                self.resolved_path(self.commands_of(state, requests).0.targets, k)
                    == self.resolved_path(state.targets, k) by {
                assert(self.resolved_path(before.targets, k) == self.resolved_path(
                    state.targets,
                    k,
                ));
                assert(self.resolved_path(before.targets, last_key) == self.resolved_path(
                    state.targets,
                    last_key,
                ));
            }
            assert forall|d: Seq<char>|
                #![trigger self.commands_of(state, requests).0.planned.contains(d)]
                self.commands_of(state, requests).0.planned.contains(d) <==> state.planned.contains(
                    d,
                ) || moved_before(commands, n, d) by {
                assert(before.planned.contains(d) <==> state.planned.contains(d) || moved_before(
                    earlier,
                    n - 1,
                    d,
                ));
                if moved_before(earlier, n - 1, d) {
                    let i = choose|i: int|
                        0 <= i < n - 1 && i < earlier.len() && moves_to(#[trigger] earlier[i], d);
                    assert(moves_to(commands[i], d));
                }
                if moved_before(commands, n, d) {
                    let i = choose|i: int|
                        0 <= i < n && i < commands.len() && moves_to(#[trigger] commands[i], d);
                    if i < n - 1 {
                        assert(moves_to(earlier[i], d));
                    }
                }
                if moves_to(commands[n - 1], d) {
                    assert(moved_before(commands, n, d));
                }
            }
        }
    }

    /// The commands of the first `i` requests are the first `i` items of
    /// the commands of all, and item `i` is what request `i` comes to on the
    /// state that the requests in front of it have left.
    pub proof fn lemma_command_at(&self, state: State, requests: Seq<Request>, i: int)
        requires
            0 <= i < requests.len(),
        ensures
            self.commands_of(state, requests).1.len() == requests.len(),
            self.commands_of(state, requests.take(i)).1 == self.commands_of(state, requests).1.take(
                i,
            ),
            self.commands_of(state, requests).1[i] == self.step(
                self.commands_of(state, requests.take(i)).0,
                requests[i],
            ).1,
        decreases requests.len(),
    {
        self.law_run_keeps_directories(state, requests);
        let rest = requests.drop_last();
        self.law_run_keeps_directories(state, rest);
        let commands = self.commands_of(state, requests).1;
        if i == requests.len() - 1 {
            assert(requests.take(i) =~= rest);
            assert(commands.take(i) =~= self.commands_of(state, rest).1);
        } else {
            self.lemma_command_at(state, rest, i);
            assert(rest.take(i) =~= requests.take(i));
            assert(commands.take(i) =~= self.commands_of(state, rest).1.take(i));
        }
    }

    /// What each request comes to, told from the start of the run and the
    /// commands in front of it.
    ///
    /// A file is moved exactly if its path names a file, its destination
    /// is free, and no move claimed that destination at the start or
    /// earlier in the run. It goes into the directory that its key resolved
    /// to at the start of the run, under its own name. A directory is
    /// created with the move exactly if the key was free at the start and
    /// no earlier request was filed under it; it is the directory made for
    /// the key.
    pub proof fn law_commands_of_request(&self, state: State, requests: Seq<Request>, i: int)
        requires
            0 <= i < requests.len(),
        ensures
            self.commands_of(state, requests).1.len() == requests.len(),
            ({
                let commands = self.commands_of(state, requests).1;
                let c = commands[i];
                let r = requests[i];
                let key = self.key_of(r);
                &&& c.move_file is Some <==> {
                    &&& self.destination_for(state.targets, r) matches Some(d)
                    &&& !r.destination_exists
                    &&& !state.planned.contains(d)
                    &&& !moved_before(commands, i, d)
                }
                &&& c.move_file matches Some(m) ==> m.0 == r.path && Some(m.1)
                    == self.destination_for(state.targets, r)
                &&& c.mk_dir is Some <==> c.move_file is Some && !state.targets.contains_key(key)
                    && !self.seen(requests, i, key)
                &&& c.mk_dir matches Some(d) ==> d == self.target_path(key)
            }),
    {
        self.lemma_command_at(state, requests, i);
        let front = requests.take(i);
        self.law_run_keeps_directories(state, front);
        let commands = self.commands_of(state, requests).1;
        let earlier = self.commands_of(state, front).1;
        let key = self.key_of(requests[i]);
        let before = self.commands_of(state, front).0;
        assert(self.resolved_path(before.targets, key) == self.resolved_path(state.targets, key));
        assert(before.targets.contains_key(key) <==> state.targets.contains_key(key) || self.seen(
            front,
            front.len() as int,
            key,
        ));
        if self.seen(front, i, key) {
            let j = choose|j: int|
                0 <= j < i && j < front.len() && self.asks_for(#[trigger] front[j], key);
            assert(requests[j] == front[j]);
        }
        if self.seen(requests, i, key) {
            let j = choose|j: int|
                0 <= j < i && j < requests.len() && self.asks_for(#[trigger] requests[j], key);
            assert(front[j] == requests[j]);
        }
        if self.destination_for(state.targets, requests[i]) is Some {
            let d = self.destination_for(state.targets, requests[i])->0;
            assert(before.planned.contains(d) <==> state.planned.contains(d) || moved_before(
                earlier,
                front.len() as int,
                d,
            ));
            if moved_before(earlier, i, d) {
                let j = choose|j: int|
                    0 <= j < i && j < earlier.len() && moves_to(#[trigger] earlier[j], d);
                assert(commands[j] == earlier[j]);
            }
            if moved_before(commands, i, d) {
                let j = choose|j: int|
                    0 <= j < i && j < commands.len() && moves_to(#[trigger] commands[j], d);
                assert(earlier[j] == commands[j]);
            }
        }
    }

    /// No two moves of a run end at the same destination, and none ends at
    /// a destination that was claimed at the start.
    pub proof fn law_destinations_are_distinct(&self, state: State, requests: Seq<Request>)
        ensures
            forall|a: int, b: int|
                0 <= a < b < moves_of(self.commands_of(state, requests).1).len() ==> (
                #[trigger] moves_of(self.commands_of(state, requests).1)[a]).1 != (
                #[trigger] moves_of(self.commands_of(state, requests).1)[b]).1,
            forall|a: int|
                0 <= a < moves_of(self.commands_of(state, requests).1).len()
                    ==> !state.planned.contains(
                    (#[trigger] moves_of(self.commands_of(state, requests).1)[a]).1,
                ),
    {
        let commands = self.commands_of(state, requests).1;
        self.law_run_keeps_directories(state, requests);
        assert forall|i: int, j: int|
            0 <= i < j < commands.len() && (#[trigger] commands[i]).move_file is Some implies !moves_to(
            #[trigger] commands[j],
            move_target(commands[i]),
        ) by {
            self.law_commands_of_request(state, requests, j);
            let d = move_target(commands[i]);
            if moves_to(commands[j], d) {
                assert(moves_to(commands[i], d));
                assert(moved_before(commands, j, d));
            }
        }
        lemma_moves_stay_distinct(commands);
        let moves = moves_of(commands);
        assert forall|a: int| 0 <= a < moves.len() implies !state.planned.contains(
            (#[trigger] moves[a]).1,
        ) by {
            lemma_move_has_command(commands, a);
            let i = choose|i: int|
                0 <= i < commands.len() && (#[trigger] commands[i]).move_file == Some(moves[a]);
            self.law_commands_of_request(state, requests, i);
        }
    }

    /// No two moves of a whole run end at the same destination, whatever
    /// the folders hold: a second file of the same name, kind and date stays
    /// where it is.
    pub proof fn law_run_destinations_are_distinct(
        &self,
        targets: Targets,
        listings: Seq<SourceListing>,
    )
        ensures
            forall|a: int, b: int|
                0 <= a < b < moves_of(self.run_commands(targets, listings).1).len() ==> (
                #[trigger] moves_of(self.run_commands(targets, listings).1)[a]).1 != (
                #[trigger] moves_of(self.run_commands(targets, listings).1)[b]).1,
    {
        self.law_destinations_are_distinct(start_of(targets), self.all_requests(listings));
    }

    /// Nothing is overwritten. Where the flags of the requests tell the
    /// truth about the paths that exist, every move of a run ends at a path
    /// where nothing stands, and no two moves end at the same path.
    pub proof fn law_plan_overwrites_nothing(
        &self,
        targets: Targets,
        requests: Seq<Request>,
        existing: Set<Seq<char>>,
    )
        requires
            forall|i: int|
                0 <= i < requests.len() ==> self.observed(targets, existing, #[trigger] requests[i]),
        ensures
            forall|a: int|
                0 <= a < moves_of(self.commands_of(start_of(targets), requests).1).len()
                    ==> !existing.contains(
                    (#[trigger] moves_of(self.commands_of(start_of(targets), requests).1)[a]).1,
                ),
            forall|a: int, b: int|
                0 <= a < b < moves_of(self.commands_of(start_of(targets), requests).1).len() ==> (
                #[trigger] moves_of(self.commands_of(start_of(targets), requests).1)[a]).1 != (
                #[trigger] moves_of(self.commands_of(start_of(targets), requests).1)[b]).1,
    {
        let state = start_of(targets);
        let commands = self.commands_of(state, requests).1;
        let moves = moves_of(commands);
        self.law_destinations_are_distinct(state, requests);
        self.law_run_keeps_directories(state, requests);
        assert forall|a: int| 0 <= a < moves.len() implies !existing.contains(
            (#[trigger] moves[a]).1,
        ) by {
            lemma_move_has_command(commands, a);
            let i = choose|i: int|
                0 <= i < commands.len() && (#[trigger] commands[i]).move_file == Some(moves[a]);
            self.law_commands_of_request(state, requests, i);
            assert(self.observed(targets, existing, requests[i]));
        }
    }

    /// A file's destination does not depend on when it is asked for: after
    /// any requests it is what it was at the start. A caller may therefore
    /// look whether the destination is taken before the run resolves keys.
    pub proof fn law_destination_is_stable(&self, state: State, requests: Seq<Request>, r: Request)
        ensures
            self.destination_for(self.commands_of(state, requests).0.targets, r)
                == self.destination_for(state.targets, r),
    {
        self.law_run_keeps_directories(state, requests);
        let key = self.key_of(r);
        let after = self.commands_of(state, requests).0.targets;
        assert(self.resolved_path(after, key) == self.resolved_path(state.targets, key));
    }

    /// Files that share kind and date go to one directory: two moves of
    /// one run whose requests have the same key end in the same directory,
    /// each under the name of its file.
    pub proof fn law_same_key_same_directory(
        &self,
        state: State,
        requests: Seq<Request>,
        i: int,
        j: int,
    )
        requires
            0 <= i < requests.len(),
            0 <= j < requests.len(),
            self.key_of(requests[i]) == self.key_of(requests[j]),
            self.commands_of(state, requests).1[i].move_file is Some,
            self.commands_of(state, requests).1[j].move_file is Some,
        ensures
            ({
                let dir = self.resolved_path(state.targets, self.key_of(requests[i]));
                let a = self.commands_of(state, requests).1[i].move_file->0;
                let b = self.commands_of(state, requests).1[j].move_file->0;
                &&& a.1 == joined(dir, file_name_of(requests[i].path)->0)
                &&& b.1 == joined(dir, file_name_of(requests[j].path)->0)
            }),
    {
        self.law_commands_of_request(state, requests, i);
        self.law_commands_of_request(state, requests, j);
    }

    /// No key has its directory created twice: of two requests of one run
    /// with the same key, at most one comes with a new directory.
    pub proof fn law_at_most_one_directory(
        &self,
        state: State,
        requests: Seq<Request>,
        i: int,
        j: int,
    )
        requires
            0 <= i < j < requests.len(),
            self.key_of(requests[i]) == self.key_of(requests[j]),
        ensures
            !(self.commands_of(state, requests).1[i].mk_dir is Some && self.commands_of(
                state,
                requests,
            ).1[j].mk_dir is Some),
    {
        self.law_commands_of_request(state, requests, i);
        self.law_commands_of_request(state, requests, j);
        if self.commands_of(state, requests).1[i].mk_dir is Some {
            assert(self.asks_for(requests[i], self.key_of(requests[j])));
            assert(self.seen(requests, j, self.key_of(requests[j])));
        }
    }

    /// A key that is free at the start has its directory created exactly
    /// once, by the first request filed under it, provided that this
    /// request's file is moved. A key that is bound at the start never has
    /// a directory created.
    pub proof fn law_directory_is_created_by_first(
        &self,
        state: State,
        requests: Seq<Request>,
        first: int,
        i: int,
    )
        requires
            0 <= first < requests.len(),
            0 <= i < requests.len(),
            file_name_of(requests[first].path) is Some,
            !self.seen(requests, first, self.key_of(requests[first])),
            self.key_of(requests[i]) == self.key_of(requests[first]),
        ensures
            self.commands_of(state, requests).1[i].mk_dir is Some <==> i == first
                && !state.targets.contains_key(self.key_of(requests[first])) && self.commands_of(
                state,
                requests,
            ).1[first].move_file is Some,
    {
        let key = self.key_of(requests[first]);
        self.law_commands_of_request(state, requests, i);
        self.law_commands_of_request(state, requests, first);
        if i > first {
            assert(self.asks_for(requests[first], key));
            assert(self.seen(requests, i, key));
        }
        if i < first && file_name_of(requests[i].path) is Some {
            assert(self.asks_for(requests[i], key));
            assert(self.seen(requests, first, key));
        }
    }

    /// A request whose destination was reported as taken gives no command.
    pub proof fn law_taken_destination_gives_nothing(
        &self,
        state: State,
        requests: Seq<Request>,
        i: int,
    )
        requires
            0 <= i < requests.len(),
            requests[i].destination_exists,
        ensures
            self.commands_of(state, requests).1[i] == CommandsView::empty(),
    {
        self.law_commands_of_request(state, requests, i);
    }

    /// A new directory never comes alone: it comes with a move, and the
    /// move goes into it.
    pub proof fn law_directory_comes_with_move(&self, state: State, requests: Seq<Request>, i: int)
        requires
            0 <= i < requests.len(),
            self.commands_of(state, requests).1[i].mk_dir is Some,
        ensures
            ({
                let c = self.commands_of(state, requests).1[i];
                let m = c.move_file->0;
                &&& c.move_file is Some
                &&& m.1 == joined(c.mk_dir->0, file_name_of(requests[i].path)->0)
            }),
    {
        self.law_commands_of_request(state, requests, i);
    }

    /// The request's flag tells the truth about `existing`: it is set
    /// exactly if something stands at the request's destination.
    pub open spec fn observed(
        &self,
        targets: Targets,
        existing: Set<Seq<char>>,
        r: Request,
    ) -> bool {
        match self.destination_for(targets, r) {
            Some(d) => r.destination_exists == existing.contains(d),
            None => true,
        }
    }

    /// Running again moves nothing.
    ///
    /// Take a run whose flags told the truth about the paths that existed,
    /// and carry out its moves. Present files that the run left in place
    /// to a second run, in any number and order, with flags that tell the
    /// truth about the paths that exist now. If the second run resolves
    /// the keys of these files to the directories that the first run
    /// resolved them to, and no file that the first run moved away stood at
    /// the destination of one of them, then the second run moves no file.
    pub proof fn law_second_run_moves_nothing(
        &self,
        targets: Targets,
        requests: Seq<Request>,
        existing: Set<Seq<char>>,
        rescanned: Targets,
        again: Seq<Request>,
        origin: Seq<int>,
    )
        requires
            forall|i: int|
                0 <= i < requests.len() ==> self.observed(targets, existing, #[trigger] requests[i]),
            origin.len() == again.len(),
            forall|i: int, j: int|
                #![trigger requests[i], again[j]]
                0 <= i < requests.len() && 0 <= j < again.len() && self.commands_of(
                    start_of(targets),
                    requests,
                ).1[i].move_file is Some ==> self.destination_for(targets, again[j]) != Some(
                    requests[i].path,
                ),
            forall|j: int|
                #![trigger again[j]]
                0 <= j < again.len() ==> self.resolved_path(rescanned, self.key_of(again[j]))
                    == self.resolved_path(targets, self.key_of(again[j])),
            forall|j: int|
                #![trigger again[j]]
                0 <= j < again.len() ==> {
                    &&& 0 <= origin[j] < requests.len()
                    &&& self.commands_of(start_of(targets), requests).1[origin[j]].move_file
                        is None
                    &&& again[j].path == requests[origin[j]].path
                    &&& again[j].f_type == requests[origin[j]].f_type
                    &&& again[j].date == requests[origin[j]].date
                    &&& self.observed(
                        rescanned,
                        existing_after(
                            existing,
                            moves_of(self.commands_of(start_of(targets), requests).1),
                        ),
                        again[j],
                    )
                },
        ensures
            moves_of(self.commands_of(start_of(rescanned), again).1) == Seq::<
                (Seq<char>, Seq<char>),
            >::empty(),
    {
        let first = self.commands_of(start_of(targets), requests).1;
        let moves = moves_of(first);
        let now = existing_after(existing, moves);
        let second = self.commands_of(start_of(rescanned), again).1;
        self.law_run_keeps_directories(start_of(rescanned), again);
        self.law_run_keeps_directories(start_of(targets), requests);
        assert forall|j: int| 0 <= j < second.len() implies (#[trigger] second[j]).move_file is None by {
            let r2 = again[j];
            let o = origin[j];
            let r1 = requests[o];
            self.law_commands_of_request(start_of(rescanned), again, j);
            self.law_commands_of_request(start_of(targets), requests, o);
            if file_name_of(r2.path) is Some {
                let key = self.key_of(r1);
                assert(self.key_of(r2) == key);
                assert(self.resolved_path(rescanned, key) == self.resolved_path(targets, key));
                let d = self.destination_for(targets, r1)->0;
                assert(self.destination_for(rescanned, r2) == Some(d));
                assert(self.destination_for(targets, r2) == Some(d));
                assert(self.observed(targets, existing, r1));
                if moved_before(first, o, d) {
                    let i = choose|i: int|
                        0 <= i < o && i < first.len() && moves_to(#[trigger] first[i], d);
                    lemma_command_move_is_listed(first, i);
                    let k = choose|k: int|
                        0 <= k < moves.len() && Some(#[trigger] moves[k]) == first[i].move_file;
                    assert(moves[k].1 == d);
                    assert(is_moved_to(moves, d));
                } else {
                    assert(r1.destination_exists);
                    assert(existing.contains(d));
                    if is_moved_from(moves, d) {
                        let k = choose|k: int| 0 <= k < moves.len() && (#[trigger] moves[k]).0 == d;
                        lemma_move_has_command(first, k);
                        let i = choose|i: int|
                            0 <= i < first.len() && (#[trigger] first[i]).move_file == Some(
                                moves[k],
                            );
                        self.law_commands_of_request(start_of(targets), requests, i);
                        assert(requests[i].path == d);
                        assert(self.destination_for(targets, again[j]) != Some(requests[i].path));
                    }
                }
                assert(now.contains(d));
                assert(self.observed(rescanned, now, r2));
                assert(r2.destination_exists);
            }
        }
        lemma_no_moves(second);
    }

    /// A move lies directly in the directory that its key resolves to. So
    /// where that directory is among those that could not be created, the
    /// move is among those that are left out.
    pub proof fn law_failed_directory_blocks_its_moves(
        &self,
        state: State,
        requests: Seq<Request>,
        i: int,
        failed: Seq<String>,
        k: int,
    )
        requires
            0 <= i < requests.len(),
            self.commands_of(state, requests).1[i].move_file is Some,
            0 <= k < failed.len(),
            failed[k]@ == self.resolved_path(state.targets, self.key_of(requests[i])),
        ensures
            ({
                let m = self.commands_of(state, requests).1[i].move_file->0;
                &&& is_inside(m.1, self.resolved_path(state.targets, self.key_of(requests[i])))
                &&& is_blocked(m.1, failed)
            }),
    {
        self.law_commands_of_request(state, requests, i);
        let name = file_name_of(requests[i].path)->0;
        lemma_file_name_is_plain(requests[i].path);
        lemma_file_name_of_joined(
            self.resolved_path(state.targets, self.key_of(requests[i])),
            name,
        );
    }

    /// A second scan binds the keys of a date as the first run resolved
    /// them, provided that the date keeps to one directory. `before` is the
    /// listing that the first scan saw, `after` the one that the second
    /// scan sees.
    pub proof fn law_rescan_binds_alike(
        &self,
        before: Seq<FolderEntry>,
        after: Seq<FolderEntry>,
        date: CalendarDate,
    )
        requires
            keeps_one_directory(before, after, date),
        ensures
            ({
                let first = scanned_targets(self.work_dir@, self.raw_folder@, before);
                let second = scanned_targets(self.work_dir@, self.raw_folder@, after);
                &&& self.resolved_path(second, TargetType::IMAGE(date)) == self.resolved_path(
                    first,
                    TargetType::IMAGE(date),
                )
                &&& self.resolved_path(second, TargetType::RAW(date)) == self.resolved_path(
                    first,
                    TargetType::RAW(date),
                )
            }),
    {
        let root = self.work_dir@;
        let raw = self.raw_folder@;
        if exists|j: int| 0 <= j < after.len() && is_dated(#[trigger] after[j], date) {
            let j = choose|j: int| 0 <= j < after.len() && is_dated(#[trigger] after[j], date);
            lemma_scan_of_single_date(root, raw, after, date, j);
            if exists|i: int| 0 <= i < before.len() && is_dated(#[trigger] before[i], date) {
                let i = choose|i: int| 0 <= i < before.len() && is_dated(#[trigger] before[i], date);
                lemma_scan_of_single_date(root, raw, before, date, i);
                let k = choose|k: int|
                    0 <= k < after.len() && is_dated(#[trigger] after[k], date) && after[k].name@
                        == before[i].name@ && (before[i].has_raw_folder
                        ==> after[k].has_raw_folder) && (after[k].has_raw_folder
                        && !before[i].has_raw_folder ==> after[k].name@ == date.text());
                assert(k == j);
            } else {
                lemma_scan_without_date(root, raw, before, date);
            }
        } else {
            lemma_scan_without_date(root, raw, after, date);
            if exists|i: int| 0 <= i < before.len() && is_dated(#[trigger] before[i], date) {
                let i = choose|i: int| 0 <= i < before.len() && is_dated(#[trigger] before[i], date);
                let k = choose|k: int|
                    0 <= k < after.len() && is_dated(#[trigger] after[k], date) && after[k].name@
                        == before[i].name@ && (before[i].has_raw_folder
                        ==> after[k].has_raw_folder) && (after[k].has_raw_folder
                        && !before[i].has_raw_folder ==> after[k].name@ == date.text());
                assert(is_dated(after[k], date));
            } else {
                lemma_scan_without_date(root, raw, before, date);
            }
        }
    }

    /// Scanning and running a second time moves nothing.
    ///
    /// A first run starts from the scan of `before`, with flags that tell
    /// the truth about the paths that existed, and its moves are carried
    /// out. A second run starts from the scan of `after` and is presented
    /// with files that the first run left in place, with flags that tell
    /// the truth about the paths that exist now. If the dates of these
    /// files keep to one directory each, and no file that the first run
    /// moved away stood at the destination of one of them, the second run
    /// moves no file.
    pub proof fn law_second_scan_and_run_move_nothing(
        &self,
        before: Seq<FolderEntry>,
        after: Seq<FolderEntry>,
        requests: Seq<Request>,
        existing: Set<Seq<char>>,
        again: Seq<Request>,
        origin: Seq<int>,
    )
        requires
            forall|i: int|
                0 <= i < requests.len() ==> self.observed(
                    scanned_targets(self.work_dir@, self.raw_folder@, before),
                    existing,
                    #[trigger] requests[i],
                ),
            origin.len() == again.len(),
            forall|i: int, j: int|
                #![trigger requests[i], again[j]]
                0 <= i < requests.len() && 0 <= j < again.len() && self.commands_of(
                    start_of(scanned_targets(self.work_dir@, self.raw_folder@, before)),
                    requests,
                ).1[i].move_file is Some ==> self.destination_for(
                    scanned_targets(self.work_dir@, self.raw_folder@, before),
                    again[j],
                ) != Some(requests[i].path),
            forall|j: int|
                #![trigger again[j]]
                0 <= j < again.len() ==> keeps_one_directory(before, after, again[j].date),
            forall|j: int|
                #![trigger again[j]]
                0 <= j < again.len() ==> {
                    &&& 0 <= origin[j] < requests.len()
                    &&& self.commands_of(
                        start_of(scanned_targets(self.work_dir@, self.raw_folder@, before)),
                        requests,
                    ).1[origin[j]].move_file is None
                    &&& again[j].path == requests[origin[j]].path
                    &&& again[j].f_type == requests[origin[j]].f_type
                    &&& again[j].date == requests[origin[j]].date
                    &&& self.observed(
                        scanned_targets(self.work_dir@, self.raw_folder@, after),
                        existing_after(
                            existing,
                            moves_of(
                                self.commands_of(
                                    start_of(
                                        scanned_targets(self.work_dir@, self.raw_folder@, before),
                                    ),
                                    requests,
                                ).1,
                            ),
                        ),
                        again[j],
                    )
                },
        ensures
            moves_of(
                self.commands_of(
                    start_of(scanned_targets(self.work_dir@, self.raw_folder@, after)),
                    again,
                ).1,
            ) == Seq::<(Seq<char>, Seq<char>)>::empty(),
    {
        let targets = scanned_targets(self.work_dir@, self.raw_folder@, before);
        let rescanned = scanned_targets(self.work_dir@, self.raw_folder@, after);
        assert forall|j: int|
            #![trigger again[j]]
            0 <= j < again.len() implies self.resolved_path(rescanned, self.key_of(again[j]))
            == self.resolved_path(targets, self.key_of(again[j])) by {
            self.law_rescan_binds_alike(before, after, again[j].date);
        }
        self.law_second_run_moves_nothing(targets, requests, existing, rescanned, again, origin);
    }

    /// A directory that a run creates is found again by the next scan,
    /// under the key that it was created for, and is never taken for a
    /// source folder: the name of a date's directory starts with that date.
    pub proof fn law_created_folder_is_found_again(
        &self,
        date: CalendarDate,
        earlier: Seq<FolderEntry>,
        entry: FolderEntry,
    )
        requires
            date.wf(),
            entry.is_dir,
            entry.name@ == date.text(),
        ensures
            !is_source(entry),
            folder_date(entry.name@) == Some(date),
            ({
                let found = scanned_targets(self.work_dir@, self.raw_folder@, earlier.push(entry));
                &&& found.contains_key(TargetType::IMAGE(date))
                &&& found[TargetType::IMAGE(date)] == self.target_path(TargetType::IMAGE(date))
                &&& entry.has_raw_folder ==> found.contains_key(TargetType::RAW(date))
                    && found[TargetType::RAW(date)] == self.target_path(TargetType::RAW(date))
            }),
    {
        let text = date.text();
        lemma_iso_text_round_trip(date.year_of(), date.month_of(), date.day_of());
        date.lemma_fields();
        assert(text.subrange(0, 10) =~= text);
        assert(date_prefix_of(text) == Some(text));
        let listing = earlier.push(entry);
        assert(listing.drop_last() =~= earlier);
        assert(listing.last() == entry);
    }
}

} // verus!
