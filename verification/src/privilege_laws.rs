//! What holds of handing over files and changing the identity, whatever comes of
//! the operations.

use vstd::prelude::*;
use vstd::utf8::*;
use crate::error::ErrorView;
use crate::identity::{
    name_problem, nul_position, GroupReplyView, IdentityView, UserQueryView, UserReplyView, UserView,
};
use crate::path::utf8_lossy;
use crate::privileges::{
    actions, answered, current, fits, go_on, lookups, new_task, numeric_group, op_error, probes,
    switch_ops, switched_to, PrivEventView, PrivOpView, TaskView,
};
use crate::text::{decimal, read_unsigned, NumberError};

verus! {

/// The task after `events` came of its operations, one after the other.
pub open spec fn run(t: TaskView, events: Seq<PrivEventView>) -> TaskView
    decreases events.len(),
{
    if events.len() == 0 {
        t
    } else {
        run(answered(t, events[0]).0, events.skip(1))
    }
}

/// The operations that are performed when `events` come of them.
pub open spec fn performed(t: TaskView, events: Seq<PrivEventView>) -> Seq<PrivOpView>
    decreases events.len(),
{
    if events.len() == 0 {
        Seq::empty()
    } else {
        let rest = performed(answered(t, events[0]).0, events.skip(1));
        if t.pending.len() > 0 && fits(t.pending[0], events[0]) {
            seq![t.pending[0]] + rest
        } else {
            rest
        }
    }
}

/// The place of an operation: lookups, files, supplementary groups, group, user,
/// variables.
pub open spec fn rank(op: PrivOpView) -> int {
    match op {
        PrivOpView::LookUpUser(_) => 0,
        PrivOpView::LookUpGroup(_) => 1,
        PrivOpView::Probe(_) => 2,
        PrivOpView::Chown { .. } => 2,
        PrivOpView::InitGroups { .. } => 3,
        PrivOpView::SetGid(_) => 4,
        PrivOpView::SetUid(_) => 5,
        PrivOpView::SetEnv { .. } => 6,
    }
}

/// Whether an operation changes the identity of the process.
pub open spec fn is_switch(op: PrivOpView) -> bool {
    rank(op) >= 3
}

/// Whether operations are in order.
pub open spec fn in_order(ops: Seq<PrivOpView>) -> bool {
    forall|i: int, j: int|
        0 <= i < j < ops.len() ==> rank(#[trigger] ops[i]) <= rank(#[trigger] ops[j])
}

spec fn placed(ops: Seq<PrivOpView>, lo: int, hi: int) -> bool {
    forall|i: int| 0 <= i < ops.len() ==> lo <= rank(#[trigger] ops[i]) <= hi
}

spec fn orderly(t: TaskView) -> bool {
    &&& in_order(t.pending)
    &&& t.stage is LookingUp ==> placed(t.pending, 0, 1)
    &&& t.stage is Acting ==> placed(t.pending, 2, 6)
    &&& t.stage is Failed ==> t.pending.len() == 0
}

proof fn lemma_order_concat(a: Seq<PrivOpView>, b: Seq<PrivOpView>, lo: int, mid: int, hi: int)
    requires
        in_order(a),
        in_order(b),
        placed(a, lo, mid),
        placed(b, mid, hi),
        lo <= mid <= hi,
    ensures
        in_order(a + b),
        placed(a + b, lo, hi),
{
    let c = a + b;
    assert forall|i: int| 0 <= i < c.len() implies lo <= rank(#[trigger] c[i]) <= hi by {
        if i < a.len() {
            assert(c[i] == a[i]);
        } else {
            assert(c[i] == b[i - a.len()]);
        }
    }
    assert forall|i: int, j: int| 0 <= i < j < c.len() implies rank(#[trigger] c[i]) <= rank(
        #[trigger] c[j],
    ) by {
        if j < a.len() {
            assert(c[i] == a[i] && c[j] == a[j]);
        } else if i < a.len() {
            assert(c[i] == a[i] && c[j] == b[j - a.len()]);
        } else {
            assert(c[i] == b[i - a.len()] && c[j] == b[j - a.len()]);
        }
    }
}

proof fn lemma_actions_order(paths: Seq<Seq<u8>>, switch: bool, id: IdentityView)
    ensures
        in_order(actions(paths, switch, id)),
        placed(actions(paths, switch, id), 2, 6),
        placed(switch_ops(id), 3, 6),
{
    assert(placed(probes(paths), 2, 3) && in_order(probes(paths)));
    assert(placed(switch_ops(id), 3, 6) && in_order(switch_ops(id)));
    lemma_order_concat(probes(paths), switch_ops(id), 2, 3, 6);
    assert(probes(paths) + Seq::<PrivOpView>::empty() =~= probes(paths));
}

proof fn lemma_new_orderly(
    user: Option<Seq<char>>,
    group: Option<Seq<char>>,
    paths: Seq<Seq<u8>>,
    switch: bool,
)
    ensures
        orderly(new_task(user, group, paths, switch)),
{
    let l = lookups(user, group);
    assert(placed(l, 0, 1) && in_order(l));
    lemma_actions_order(
        new_task(user, group, paths, switch).paths,
        switch,
        new_task(user, group, paths, switch).identity,
    );
}

proof fn lemma_answer_orderly(t: TaskView, e: PrivEventView)
    requires
        orderly(t),
    ensures
        orderly(answered(t, e).0),
        t.pending.len() > 0 && fits(t.pending[0], e) ==> placed(
            answered(t, e).0.pending,
            rank(t.pending[0]),
            6,
        ),
{
    if t.pending.len() > 0 && fits(t.pending[0], e) {
        let op = t.pending[0];
        let rest = t.pending.skip(1);
        let r = rank(op);
        assert forall|i: int, j: int| 0 <= i < j < rest.len() implies rank(#[trigger] rest[i])
            <= rank(#[trigger] rest[j]) by {
            assert(rest[i] == t.pending[i + 1] && rest[j] == t.pending[j + 1]);
        }
        assert forall|i: int| 0 <= i < rest.len() implies r <= rank(#[trigger] rest[i]) <= 6 by {
            assert(rest[i] == t.pending[i + 1]);
        }
        if t.stage is LookingUp {
            assert(placed(rest, 0, 1)) by {
                assert forall|i: int| 0 <= i < rest.len() implies 0 <= rank(#[trigger] rest[i])
                    <= 1 by {
                    assert(rest[i] == t.pending[i + 1]);
                }
            }
        } else {
            assert(placed(rest, 2, 6)) by {
                assert forall|i: int| 0 <= i < rest.len() implies 2 <= rank(#[trigger] rest[i])
                    <= 6 by {
                    assert(rest[i] == t.pending[i + 1]);
                }
            }
        }
        match (op, e) {
            (PrivOpView::Probe(path), PrivEventView::Present(true)) => {
                let first = seq![
                    PrivOpView::Chown {
                        path,
                        uid: t.identity.uid(),
                        gid: t.identity.effective_gid(),
                    },
                ];
                assert(placed(first, 2, 2) && in_order(first));
                lemma_order_concat(first, rest, 2, 2, 6);
            },
            (PrivOpView::LookUpUser(q), PrivEventView::User(reply)) => {
                match crate::identity::user_of(q, reply) {
                    Ok(u) => {
                        lemma_actions_order(
                            t.paths,
                            t.switch,
                            IdentityView { user: Some(u), ..t.identity },
                        );
                    },
                    Err(_) => {},
                }
            },
            (PrivOpView::LookUpGroup(name), PrivEventView::Group(reply)) => {
                match crate::identity::group_of(name, reply) {
                    Ok(g) => {
                        lemma_actions_order(
                            t.paths,
                            t.switch,
                            IdentityView { explicit_group: Some(g), ..t.identity },
                        );
                    },
                    Err(_) => {},
                }
            },
            _ => {},
        }
    }
}

proof fn lemma_performed_order(t: TaskView, events: Seq<PrivEventView>, lo: int)
    requires
        orderly(t),
        placed(t.pending, lo, 6),
        lo <= 6,
    ensures
        in_order(performed(t, events)),
        placed(performed(t, events), lo, 6),
    decreases events.len(),
{
    if events.len() > 0 {
        let rest = events.skip(1);
        let next = answered(t, events[0]).0;
        lemma_answer_orderly(t, events[0]);
        if t.pending.len() > 0 && fits(t.pending[0], events[0]) {
            let op = t.pending[0];
            lemma_performed_order(next, rest, rank(op));
            let head = seq![op];
            assert(placed(head, lo, rank(op)) && in_order(head));
            lemma_order_concat(head, performed(next, rest), lo, rank(op), 6);
        } else {
            lemma_performed_order(next, rest, lo);
        }
    }
}

/// Whatever comes of the operations, they are performed in order: the lookups,
/// the files, the supplementary groups, the group, the user, the variables.
pub proof fn operations_are_performed_in_order(
    user: Option<Seq<char>>,
    group: Option<Seq<char>>,
    paths: Seq<Seq<u8>>,
    switch: bool,
    events: Seq<PrivEventView>,
)
    ensures
        in_order(performed(new_task(user, group, paths, switch), events)),
{
    let t = new_task(user, group, paths, switch);
    lemma_new_orderly(user, group, paths, switch);
    assert(placed(t.pending, 0, 6)) by {
        assert forall|i: int| 0 <= i < t.pending.len() implies 0 <= rank(#[trigger] t.pending[i])
            <= 6 by {}
    }
    lemma_performed_order(t, events, 0);
}

proof fn lemma_run_performed(t: TaskView, events: Seq<PrivEventView>, lo: int)
    requires
        orderly(t),
        placed(t.pending, lo, 6),
        lo <= 6,
    ensures
        orderly(run(t, events)),
        placed(run(t, events).pending, lo, 6),
        forall|i: int, j: int|
            0 <= i < performed(t, events).len() && 0 <= j < run(t, events).pending.len() ==> rank(
                #[trigger] performed(t, events)[i],
            ) <= rank(#[trigger] run(t, events).pending[j]),
    decreases events.len(),
{
    if events.len() > 0 {
        let rest = events.skip(1);
        let next = answered(t, events[0]).0;
        lemma_answer_orderly(t, events[0]);
        if t.pending.len() > 0 && fits(t.pending[0], events[0]) {
            let op = t.pending[0];
            lemma_run_performed(next, rest, rank(op));
            let made = performed(t, events);
            let end = run(t, events).pending;
            assert forall|i: int, j: int| 0 <= i < made.len() && 0 <= j < end.len() implies rank(
                #[trigger] made[i],
            ) <= rank(#[trigger] end[j]) by {
                if i > 0 {
                    assert(made[i] == performed(next, rest)[i - 1]);
                }
            }
            assert(lo <= rank(op));
            assert forall|j: int| 0 <= j < end.len() implies lo <= rank(#[trigger] end[j])
                <= 6 by {}
        } else {
            lemma_run_performed(next, rest, lo);
        }
    }
}

proof fn lemma_nothing_after_failure(t: TaskView, events: Seq<PrivEventView>)
    requires
        t.pending.len() == 0,
    ensures
        performed(t, events) == Seq::<PrivOpView>::empty(),
    decreases events.len(),
{
    if events.len() > 0 {
        lemma_nothing_after_failure(t, events.skip(1));
    }
}

/// A file that cannot be handed over stops the change of identity before it has
/// begun: nothing of the identity was changed before, and nothing is done after.
pub proof fn failed_chown_keeps_the_identity(
    user: Option<Seq<char>>,
    group: Option<Seq<char>>,
    paths: Seq<Seq<u8>>,
    switch: bool,
    events: Seq<PrivEventView>,
    text: Seq<char>,
    more: Seq<PrivEventView>,
)
    requires
        run(new_task(user, group, paths, switch), events).pending.len() > 0,
        run(new_task(user, group, paths, switch), events).pending[0] is Chown,
    ensures
        forall|i: int|
            0 <= i < performed(new_task(user, group, paths, switch), events).len() ==> !is_switch(
                #[trigger] performed(new_task(user, group, paths, switch), events)[i],
            ),
        ({
            let t = run(new_task(user, group, paths, switch), events);
            let (end, error) = answered(t, PrivEventView::Failed(text));
            &&& error == Some(op_error(t.pending[0], text))
            &&& current(end) is Abandoned
            &&& performed(end, more) == Seq::<PrivOpView>::empty()
        }),
{
    let start = new_task(user, group, paths, switch);
    let t = run(start, events);
    lemma_new_orderly(user, group, paths, switch);
    assert(placed(start.pending, 0, 6)) by {
        assert forall|i: int| 0 <= i < start.pending.len() implies 0 <= rank(
            #[trigger] start.pending[i],
        ) <= 6 by {}
    }
    lemma_run_performed(start, events, 0);
    let made = performed(start, events);
    assert forall|i: int| 0 <= i < made.len() implies !is_switch(#[trigger] made[i]) by {
        assert(rank(made[i]) <= rank(t.pending[0]));
    }
    let end = answered(t, PrivEventView::Failed(text)).0;
    lemma_nothing_after_failure(end, more);
}

/// Without user and group there is nothing to do, and it is done.
pub proof fn nothing_to_do_without_user_and_group(paths: Seq<Seq<u8>>, switch: bool)
    ensures
        current(new_task(None, None, paths, switch)) is Finished,
{
    let t = new_task(None, None, paths, switch);
    assert(probes(Seq::<Seq<u8>>::empty()) =~= Seq::<PrivOpView>::empty());
    assert(lookups(None, None) =~= Seq::<PrivOpView>::empty());
    assert(t.pending =~= Seq::<PrivOpView>::empty());
}

/// The four ways of changing the identity. The supplementary groups are always
/// those of the user's primary group, also where another group is configured; a
/// group alone changes neither them nor the user.
pub proof fn switch_by_user_and_group(id: IdentityView)
    ensures
        id.user is None && id.explicit_group is None ==> switch_ops(id) == Seq::<
            PrivOpView,
        >::empty(),
        id.user is None ==> (id.explicit_group matches Some(g) ==> switch_ops(id) == seq![
            PrivOpView::SetGid(g),
        ]),
        id.user matches Some(u) ==> {
            &&& switch_ops(id).len() == 6
            &&& switch_ops(id)[0] == (PrivOpView::InitGroups { name: u.name, primary: u.gid })
            &&& switch_ops(id)[1] == PrivOpView::SetGid(
                match id.explicit_group {
                    Some(g) => g,
                    None => u.gid,
                },
            )
            &&& switch_ops(id)[2] == PrivOpView::SetUid(u.uid)
        },
{
    if id.user is None && id.explicit_group is None {
        assert(switch_ops(id) =~= Seq::<PrivOpView>::empty());
    }
    if id.user is None {
        if let Some(g) = id.explicit_group {
            assert(switch_ops(id) =~= seq![PrivOpView::SetGid(g)]);
        }
    }
}

/// With the handing over switched off, the identity is changed all the same.
pub proof fn switch_without_files_is_the_same_switch(paths: Seq<Seq<u8>>, id: IdentityView)
    ensures
        actions(Seq::empty(), true, id) == switch_ops(id),
        actions(paths, true, id) == probes(paths) + switch_ops(id),
{
    assert(actions(Seq::empty(), true, id) =~= switch_ops(id));
}

// ---------------------------------------------------------------------------
// Completeness
// ---------------------------------------------------------------------------

/// Whether `s` ends with `tail`.
pub open spec fn ends_with(s: Seq<PrivOpView>, tail: Seq<PrivOpView>) -> bool {
    s.len() >= tail.len() && s.skip(s.len() - tail.len()) == tail
}

spec fn switching(t: TaskView, made: Seq<PrivOpView>) -> bool {
    t.stage is Acting && t.switch ==> ends_with(made + t.pending, switch_ops(t.identity))
}

proof fn lemma_switching_step(t: TaskView, made: Seq<PrivOpView>, e: PrivEventView)
    requires
        orderly(t),
        switching(t, made),
        t.pending.len() > 0,
        fits(t.pending[0], e),
    ensures
        switching(answered(t, e).0, made.push(t.pending[0])),
{
    let op = t.pending[0];
    let next = answered(t, e).0;
    let rest = t.pending.skip(1);
    let now = made.push(op);
    if next.stage is Acting && next.switch {
        let tail = switch_ops(next.identity);
        if t.stage is Acting {
            let before = made + t.pending;
            assert(now + rest =~= before);
            if next.pending != rest {
                // a file was found: it is handed over before anything else
                let more = now + next.pending;
                lemma_actions_order(t.paths, t.switch, t.identity);
                assert(rest.len() >= tail.len()) by {
                    if rest.len() < tail.len() {
                        let k = tail.len() - rest.len() - 1;
                        assert(before.skip(before.len() - tail.len())[k] == before[made.len() as int]);
                        assert(before[made.len() as int] == op);
                        assert(tail[k] == op);
                        assert(rank(tail[k]) >= 3);
                    }
                }
                assert(more.skip(more.len() - tail.len()) =~= before.skip(
                    before.len() - tail.len(),
                ));
            } else {
                assert(now + next.pending =~= before);
            }
        } else {
            let all = actions(next.paths, next.switch, next.identity);
            assert(next.pending == all);
            let p = probes(next.paths);
            assert(all =~= p + tail);
            let s = now + all;
            assert(s.skip(s.len() - tail.len()) =~= tail);
        }
    }
}

proof fn lemma_switching(t: TaskView, made: Seq<PrivOpView>, events: Seq<PrivEventView>)
    requires
        orderly(t),
        switching(t, made),
    ensures
        switching(run(t, events), made + performed(t, events)),
    decreases events.len(),
{
    if events.len() == 0 {
        assert(made + performed(t, events) =~= made);
    } else {
        let rest = events.skip(1);
        let next = answered(t, events[0]).0;
        lemma_answer_orderly(t, events[0]);
        if t.pending.len() > 0 && fits(t.pending[0], events[0]) {
            let op = t.pending[0];
            lemma_switching_step(t, made, events[0]);
            lemma_switching(next, made.push(op), rest);
            assert(made.push(op) + performed(next, rest) =~= made + performed(t, events));
        } else {
            lemma_switching(next, made, rest);
        }
    }
}

/// A finished change of identity has performed every operation of it: the
/// operations that were performed end with them.
pub proof fn finished_switch_is_complete(
    user: Option<Seq<char>>,
    group: Option<Seq<char>>,
    paths: Seq<Seq<u8>>,
    events: Seq<PrivEventView>,
)
    requires
        current(run(new_task(user, group, paths, true), events)) is Finished,
    ensures
        ends_with(
            performed(new_task(user, group, paths, true), events),
            switch_ops(run(new_task(user, group, paths, true), events).identity),
        ),
{
    let t = new_task(user, group, paths, true);
    lemma_new_orderly(user, group, paths, true);
    let none = Seq::<PrivOpView>::empty();
    assert(switching(t, none)) by {
        if t.stage is Acting {
            let p = probes(t.paths);
            let tail = switch_ops(t.identity);
            assert(none + t.pending =~= p + tail);
            assert((p + tail).skip((p + tail).len() - tail.len()) =~= tail);
        }
    }
    lemma_switching(t, none, events);
    let end = run(t, events);
    lemma_stays_switch(t, events);
    assert(none + performed(t, events) + end.pending =~= performed(t, events));
}

proof fn lemma_stays_switch(t: TaskView, events: Seq<PrivEventView>)
    requires
        t.switch,
        t.stage is LookingUp ==> t.pending.len() > 0,
    ensures
        run(t, events).switch,
        run(t, events).stage is LookingUp ==> run(t, events).pending.len() > 0,
    decreases events.len(),
{
    if events.len() > 0 {
        lemma_stays_switch(answered(t, events[0]).0, events.skip(1));
    }
}

// ---------------------------------------------------------------------------
// Files
// ---------------------------------------------------------------------------

/// Whether the events tell truly which files are there.
pub open spec fn tells_files(
    t: TaskView,
    events: Seq<PrivEventView>,
    files: Set<Seq<u8>>,
) -> bool
    decreases events.len(),
{
    if events.len() == 0 {
        true
    } else {
        &&& t.pending.len() > 0 && fits(t.pending[0], events[0]) ==> (t.pending[0] matches
            PrivOpView::Probe(p) ==> events[0] == PrivEventView::Present(files.contains(p)))
        &&& tells_files(answered(t, events[0]).0, events.skip(1), files)
    }
}

/// Handing a file over to an identity.
pub open spec fn hand_over(path: Seq<u8>, id: IdentityView) -> PrivOpView {
    PrivOpView::Chown { path, uid: id.uid(), gid: id.effective_gid() }
}

spec fn file_is_due(
    t: TaskView,
    made: Seq<PrivOpView>,
    files: Set<Seq<u8>>,
    path: Seq<u8>,
) -> bool {
    t.stage is Acting && t.paths.contains(path) && files.contains(path) ==> {
        ||| made.contains(hand_over(path, t.identity))
        ||| t.pending.contains(PrivOpView::Probe(path))
        ||| t.pending.contains(hand_over(path, t.identity))
    }
}

proof fn lemma_file_step(
    t: TaskView,
    made: Seq<PrivOpView>,
    files: Set<Seq<u8>>,
    path: Seq<u8>,
    e: PrivEventView,
)
    requires
        orderly(t),
        file_is_due(t, made, files, path),
        t.pending.len() > 0,
        fits(t.pending[0], e),
        t.pending[0] matches PrivOpView::Probe(p) ==> e == PrivEventView::Present(
            files.contains(p),
        ),
    ensures
        file_is_due(answered(t, e).0, made.push(t.pending[0]), files, path),
{
    let op = t.pending[0];
    let next = answered(t, e).0;
    let rest = t.pending.skip(1);
    let now = made.push(op);
    let due = hand_over(path, next.identity);
    if next.stage is Acting && next.paths.contains(path) && files.contains(path) {
        if t.stage is Acting {
            assert(next.identity == t.identity);
            if made.contains(due) {
                let i = choose|i: int| 0 <= i < made.len() && made[i] == due;
                assert(now[i] == due);
            } else if op == due {
                assert(now[made.len() as int] == due);
            } else if op == PrivOpView::Probe(path) {
                assert(next.pending[0] == due);
            } else {
                let wanted = if t.pending.contains(due) {
                    due
                } else {
                    PrivOpView::Probe(path)
                };
                let i = choose|i: int| 0 <= i < t.pending.len() && t.pending[i] == wanted;
                assert(rest[i - 1] == wanted);
                let more = next.pending.len() - rest.len();
                assert(next.pending[i - 1 + more] == wanted);
            }
        } else {
            let i = choose|i: int| 0 <= i < next.paths.len() && next.paths[i] == path;
            assert(probes(next.paths)[i] == PrivOpView::Probe(path));
            assert(next.pending[i] == PrivOpView::Probe(path));
        }
    }
}

proof fn lemma_files(
    t: TaskView,
    made: Seq<PrivOpView>,
    files: Set<Seq<u8>>,
    path: Seq<u8>,
    events: Seq<PrivEventView>,
)
    requires
        orderly(t),
        file_is_due(t, made, files, path),
        tells_files(t, events, files),
    ensures
        file_is_due(run(t, events), made + performed(t, events), files, path),
        run(t, events).paths == t.paths,
    decreases events.len(),
{
    if events.len() == 0 {
        assert(made + performed(t, events) =~= made);
    } else {
        let rest = events.skip(1);
        let next = answered(t, events[0]).0;
        lemma_answer_orderly(t, events[0]);
        if t.pending.len() > 0 && fits(t.pending[0], events[0]) {
            let op = t.pending[0];
            lemma_file_step(t, made, files, path, events[0]);
            lemma_files(next, made.push(op), files, path, rest);
            assert(made.push(op) + performed(next, rest) =~= made + performed(t, events));
        } else {
            lemma_files(next, made, files, path, rest);
        }
    }
}

/// Where a user or a group is configured, every file of the task that is there
/// has been handed over to them when the task is finished.
pub proof fn every_file_is_handed_over(
    user: Option<Seq<char>>,
    group: Option<Seq<char>>,
    paths: Seq<Seq<u8>>,
    switch: bool,
    files: Set<Seq<u8>>,
    events: Seq<PrivEventView>,
    i: int,
)
    requires
        user is Some || group is Some,
        0 <= i < paths.len(),
        files.contains(paths[i]),
        tells_files(new_task(user, group, paths, switch), events, files),
        current(run(new_task(user, group, paths, switch), events)) is Finished,
    ensures
        performed(new_task(user, group, paths, switch), events).contains(
            hand_over(paths[i], run(new_task(user, group, paths, switch), events).identity),
        ),
{
    let t = new_task(user, group, paths, switch);
    let none = Seq::<PrivOpView>::empty();
    let end = run(t, events);
    lemma_new_orderly(user, group, paths, switch);
    if t.stage is Acting {
        assert(probes(t.paths)[i] == PrivOpView::Probe(paths[i]));
        assert(t.pending[i] == PrivOpView::Probe(paths[i]));
    }
    lemma_files(t, none, files, paths[i], events);
    lemma_leaves_lookups(t, events);
    assert(none + performed(t, events) =~= performed(t, events));
    assert(end.paths[i] == paths[i]);
    assert(end.pending.len() == 0);
}

proof fn lemma_leaves_lookups(t: TaskView, events: Seq<PrivEventView>)
    requires
        t.stage is LookingUp ==> t.pending.len() > 0,
    ensures
        run(t, events).stage is LookingUp ==> run(t, events).pending.len() > 0,
    decreases events.len(),
{
    if events.len() > 0 {
        lemma_leaves_lookups(answered(t, events[0]).0, events.skip(1));
    }
}

spec fn keeps_identity(t: TaskView) -> bool {
    &&& !t.switch
    &&& forall|i: int| 0 <= i < t.pending.len() ==> !is_switch(#[trigger] t.pending[i])
}

proof fn lemma_keeps_identity(t: TaskView, events: Seq<PrivEventView>)
    requires
        keeps_identity(t),
    ensures
        forall|i: int|
            0 <= i < performed(t, events).len() ==> !is_switch(#[trigger] performed(t, events)[i]),
    decreases events.len(),
{
    if events.len() > 0 {
        let next = answered(t, events[0]).0;
        assert(keeps_identity(next)) by {
            if t.pending.len() > 0 {
                assert(forall|i: int|
                    0 <= i < t.pending.skip(1).len() ==> #[trigger] t.pending.skip(1)[i]
                        == t.pending[i + 1]);
                assert(!is_switch(t.pending[0]));
            }
        }
        let rest = performed(next, events.skip(1));
        lemma_keeps_identity(next, events.skip(1));
        if t.pending.len() > 0 && fits(t.pending[0], events[0]) {
            assert forall|i: int| 0 <= i < performed(t, events).len() implies !is_switch(
                #[trigger] performed(t, events)[i],
            ) by {
                if i > 0 {
                    assert(performed(t, events)[i] == rest[i - 1]);
                }
            }
        }
    }
}

/// Handing the files over does not by itself change the identity.
pub proof fn handing_over_keeps_the_identity(
    user: Option<Seq<char>>,
    group: Option<Seq<char>>,
    paths: Seq<Seq<u8>>,
    events: Seq<PrivEventView>,
    i: int,
)
    requires
        0 <= i < performed(new_task(user, group, paths, false), events).len(),
    ensures
        !is_switch(performed(new_task(user, group, paths, false), events)[i]),
{
    let t = new_task(user, group, paths, false);
    assert(keeps_identity(t));
    lemma_keeps_identity(t, events);
}

// ---------------------------------------------------------------------------
// What a finished task has done
// ---------------------------------------------------------------------------

/// The operations that are performed when `events` come of them, each with what
/// came of it.
pub open spec fn trace(t: TaskView, events: Seq<PrivEventView>) -> Seq<
    (PrivOpView, PrivEventView),
>
    decreases events.len(),
{
    if events.len() == 0 {
        Seq::empty()
    } else {
        let rest = trace(answered(t, events[0]).0, events.skip(1));
        if t.pending.len() > 0 && fits(t.pending[0], events[0]) {
            seq![(t.pending[0], events[0])] + rest
        } else {
            rest
        }
    }
}

proof fn lemma_stays_failed(t: TaskView, events: Seq<PrivEventView>)
    requires
        t.stage is Failed,
        t.pending.len() == 0,
    ensures
        run(t, events) == t,
    decreases events.len(),
{
    if events.len() > 0 {
        lemma_stays_failed(t, events.skip(1));
    }
}

/// The first operation of a task that is finished in the end, what came of it, and
/// what is left to come.
proof fn lemma_head(t: TaskView, events: Seq<PrivEventView>) -> (rest: Seq<PrivEventView>)
    requires
        current(run(t, events)) is Finished,
        t.pending.len() > 0,
    ensures
        rest.len() < events.len(),
        trace(t, events).len() > 0,
        trace(t, events)[0].0 == t.pending[0],
        fits(t.pending[0], trace(t, events)[0].1),
        ({
            let next = answered(t, trace(t, events)[0].1).0;
            &&& !(next.stage is Failed)
            &&& run(next, rest) == run(t, events)
            &&& trace(t, events) == seq![trace(t, events)[0]] + trace(next, rest)
            &&& performed(t, events) == seq![t.pending[0]] + performed(next, rest)
        }),
    decreases events.len(),
{
    let e = events[0];
    if !fits(t.pending[0], e) {
        lemma_head(t, events.skip(1))
    } else {
        let next = answered(t, e).0;
        if next.stage is Failed {
            if t.stage is Failed {
                lemma_failed_for_good(t, events);
            } else {
                lemma_failed_for_good(next, events.skip(1));
            }
        }
        assert(trace(t, events)[0] == (t.pending[0], e));
        events.skip(1)
    }
}

proof fn lemma_failed_for_good(t: TaskView, events: Seq<PrivEventView>)
    requires
        t.stage is Failed,
    ensures
        run(t, events).stage is Failed,
    decreases events.len(),
{
    if events.len() > 0 {
        lemma_failed_for_good(answered(t, events[0]).0, events.skip(1));
    }
}

/// The operations that change the identity, in order.
pub open spec fn switches(ops: Seq<PrivOpView>) -> Seq<PrivOpView>
    decreases ops.len(),
{
    if ops.len() == 0 {
        Seq::empty()
    } else if is_switch(ops[0]) {
        seq![ops[0]] + switches(ops.skip(1))
    } else {
        switches(ops.skip(1))
    }
}

proof fn lemma_switches_concat(a: Seq<PrivOpView>, b: Seq<PrivOpView>)
    ensures
        switches(a + b) == switches(a) + switches(b),
    decreases a.len(),
{
    if a.len() == 0 {
        assert(a + b =~= b);
        assert(switches(a) + switches(b) =~= switches(b));
    } else {
        assert((a + b)[0] == a[0]);
        assert((a + b).skip(1) =~= a.skip(1) + b);
        lemma_switches_concat(a.skip(1), b);
        assert(switches(a + b) =~= switches(a) + switches(b));
    }
}

proof fn lemma_switches_none(ops: Seq<PrivOpView>)
    requires
        forall|i: int| 0 <= i < ops.len() ==> !is_switch(#[trigger] ops[i]),
    ensures
        switches(ops) == Seq::<PrivOpView>::empty(),
    decreases ops.len(),
{
    if ops.len() > 0 {
        assert(!is_switch(ops[0]));
        assert forall|i: int| 0 <= i < ops.skip(1).len() implies !is_switch(
            #[trigger] ops.skip(1)[i],
        ) by {
            assert(ops.skip(1)[i] == ops[i + 1]);
        }
        lemma_switches_none(ops.skip(1));
    }
}

proof fn lemma_switches_all(ops: Seq<PrivOpView>)
    requires
        forall|i: int| 0 <= i < ops.len() ==> is_switch(#[trigger] ops[i]),
    ensures
        switches(ops) == ops,
    decreases ops.len(),
{
    if ops.len() > 0 {
        assert(is_switch(ops[0]));
        assert forall|i: int| 0 <= i < ops.skip(1).len() implies is_switch(
            #[trigger] ops.skip(1)[i],
        ) by {
            assert(ops.skip(1)[i] == ops[i + 1]);
        }
        lemma_switches_all(ops.skip(1));
        assert(seq![ops[0]] + ops.skip(1) =~= ops);
    }
}

/// How a process becomes a user and takes a group. With a user: first the user's
/// supplementary groups with the primary one, then the group, which is the user's
/// primary one where no other is given, then the user, and at last the variables
/// that name the user and the home directory. With a group alone: that group.
pub open spec fn becoming(u: Option<UserView>, g: Option<int>) -> Seq<PrivOpView> {
    match (u, g) {
        (None, None) => Seq::empty(),
        (None, Some(gid)) => seq![PrivOpView::SetGid(gid)],
        (Some(user), _) => seq![
            PrivOpView::InitGroups { name: user.name, primary: user.gid },
            PrivOpView::SetGid(
                if g is Some {
                    g->0
                } else {
                    user.gid
                },
            ),
            PrivOpView::SetUid(user.uid),
            PrivOpView::SetEnv { key: "USER"@, value: encode_utf8(user.name) },
            PrivOpView::SetEnv { key: "HOME"@, value: user.dir },
            PrivOpView::SetEnv { key: "LOGNAME"@, value: encode_utf8(user.name) },
        ],
    }
}

/// The owner that files are handed to.
pub open spec fn owner(u: Option<UserView>) -> Option<int> {
    match u {
        Some(user) => Some(user.uid),
        None => None,
    }
}

/// The group that files are handed to.
pub open spec fn owning_group(u: Option<UserView>, g: Option<int>) -> Option<int> {
    match (u, g) {
        (_, Some(gid)) => Some(gid),
        (Some(user), None) => Some(user.gid),
        (None, None) => None,
    }
}

/// Whether `u` and `g` are the user and the group that were asked for: a user is
/// looked up by number where it reads as one and else by name; a group that reads
/// as a number is that group, and any other one is looked up by name.
pub open spec fn are_asked_for(
    made: Seq<(PrivOpView, PrivEventView)>,
    user: Option<Seq<char>>,
    group: Option<Seq<char>>,
    u: Option<UserView>,
    g: Option<int>,
) -> bool {
    &&& match user {
        None => u is None,
        Some(s) => {
            &&& u matches Some(found) && made.len() > 0 && made[0] == (
                PrivOpView::LookUpUser(
                    match read_unsigned(s, 10, u32::MAX as nat) {
                        Ok(id) => UserQueryView::ById(id as int),
                        Err(_) => UserQueryView::ByName(s),
                    },
                ),
                PrivEventView::User(UserReplyView::Found(found)),
            )
        },
    }
    &&& match group {
        None => g is None,
        Some(s) => match read_unsigned(s, 10, u32::MAX as nat) {
            Ok(id) => g == Some(id as int),
            Err(_) => {
                let i: int = if user is Some {
                    1
                } else {
                    0
                };
                &&& g matches Some(found) && made.len() > i && made[i] == (
                    PrivOpView::LookUpGroup(s),
                    PrivEventView::Group(GroupReplyView::Found(found)),
                )
            },
        },
    }
}

/// Whether files were handed over to this user and group only, and none but these.
pub open spec fn hands_over(
    ops: Seq<PrivOpView>,
    paths: Seq<Seq<u8>>,
    u: Option<UserView>,
    g: Option<int>,
) -> bool {
    forall|i: int|
        0 <= i < ops.len() ==> match #[trigger] ops[i] {
            PrivOpView::Chown { path, uid, gid } => paths.contains(path) && uid == owner(u) && gid
                == owning_group(u, g),
            PrivOpView::Probe(path) => paths.contains(path),
            _ => true,
        }
}

proof fn lemma_hands_over_concat(
    a: Seq<PrivOpView>,
    b: Seq<PrivOpView>,
    paths: Seq<Seq<u8>>,
    u: Option<UserView>,
    g: Option<int>,
)
    requires
        hands_over(a, paths, u, g),
        hands_over(b, paths, u, g),
    ensures
        hands_over(a + b, paths, u, g),
{
    let ab = a + b;
    assert forall|i: int| 0 <= i < ab.len() implies match #[trigger] ab[i] {
        PrivOpView::Chown { path, uid, gid } => paths.contains(path) && uid == owner(u) && gid
            == owning_group(u, g),
        PrivOpView::Probe(path) => paths.contains(path),
        _ => true,
    } by {
        if i < a.len() {
            assert(ab[i] == a[i]);
        } else {
            assert(ab[i] == b[i - a.len()]);
        }
    }
}

#[verifier::rlimit(40)]
proof fn lemma_acting(t: TaskView, events: Seq<PrivEventView>)
    requires
        t.stage is Acting,
        current(run(t, events)) is Finished,
        hands_over(t.pending, t.paths, t.identity.user, t.identity.explicit_group),
        forall|i: int| 0 <= i < t.pending.len() ==> rank(#[trigger] t.pending[i]) >= 2,
    ensures
        switches(performed(t, events)) == switches(t.pending),
        hands_over(performed(t, events), t.paths, t.identity.user, t.identity.explicit_group),
        run(t, events).identity == t.identity,
    decreases events.len(),
{
    let u = t.identity.user;
    let g = t.identity.explicit_group;
    if t.pending.len() == 0 {
        lemma_nothing_after_failure(t, events);
        lemma_stays_finished(t, events);
        assert(t.pending =~= Seq::<PrivOpView>::empty());
    } else {
        let op = t.pending[0];
        let rest = lemma_head(t, events);
        let e = trace(t, events)[0].1;
        let next = answered(t, e).0;
        let behind = t.pending.skip(1);
        assert(rank(op) >= 2);
        assert forall|i: int| 0 <= i < behind.len() implies behind[i] == t.pending[i + 1] by {}
        assert(hands_over(behind, t.paths, u, g)) by {
            assert forall|i: int| 0 <= i < behind.len() implies match #[trigger] behind[i] {
                PrivOpView::Chown { path, uid, gid } => t.paths.contains(path) && uid == owner(u)
                    && gid == owning_group(u, g),
                PrivOpView::Probe(path) => t.paths.contains(path),
                _ => true,
            } by {
                assert(behind[i] == t.pending[i + 1]);
            }
        }
        let first = match (op, e) {
            (PrivOpView::Probe(path), PrivEventView::Present(true)) => seq![
                PrivOpView::Chown { path, uid: owner(u), gid: owning_group(u, g) },
            ],
            _ => Seq::empty(),
        };
        assert(t.pending[0] == op);
        assert(hands_over(first, t.paths, u, g));
        assert(Seq::<PrivOpView>::empty() + behind =~= behind);
        assert(next.pending == first + behind);
        lemma_hands_over_concat(first, behind, t.paths, u, g);
        assert forall|i: int| 0 <= i < next.pending.len() implies rank(
            #[trigger] next.pending[i],
        ) >= 2 by {
            if i < first.len() {
                assert(next.pending[i] == first[i]);
            } else {
                assert(next.pending[i] == behind[i - first.len()]);
            }
        }
        lemma_acting(next, rest);
        lemma_switches_none(first);
        lemma_switches_concat(first, behind);
        assert(switches(first) + switches(behind) =~= switches(behind));
        assert(t.pending =~= seq![op] + behind);
        lemma_switches_concat(seq![op], behind);
        lemma_switches_concat(seq![op], performed(next, rest));
        assert(hands_over(seq![op], t.paths, u, g));
        lemma_hands_over_concat(seq![op], performed(next, rest), t.paths, u, g);
    }
}

proof fn lemma_stays_finished(t: TaskView, events: Seq<PrivEventView>)
    requires
        t.pending.len() == 0,
    ensures
        run(t, events) == t,
    decreases events.len(),
{
    if events.len() > 0 {
        lemma_stays_finished(t, events.skip(1));
    }
}

proof fn lemma_switch_ops(id: IdentityView)
    ensures
        switch_ops(id) == becoming(id.user, id.explicit_group),
{
    assert(switch_ops(id) =~= becoming(id.user, id.explicit_group));
}

/// A task that has just got to its actions.
proof fn lemma_acting_start(t: TaskView, events: Seq<PrivEventView>)
    requires
        t.stage is Acting,
        t.pending == actions(t.paths, t.switch, t.identity),
        current(run(t, events)) is Finished,
    ensures
        switches(performed(t, events)) == (if t.switch {
            becoming(t.identity.user, t.identity.explicit_group)
        } else {
            Seq::empty()
        }),
        hands_over(performed(t, events), t.paths, t.identity.user, t.identity.explicit_group),
        run(t, events).identity == t.identity,
{
    let id = t.identity;
    let p = probes(t.paths);
    let tail = if t.switch {
        switch_ops(id)
    } else {
        Seq::empty()
    };
    lemma_actions_order(t.paths, t.switch, id);
    assert forall|i: int| 0 <= i < p.len() implies p[i] == PrivOpView::Probe(t.paths[i])
        && t.paths.contains(t.paths[i]) by {}
    assert(hands_over(p, t.paths, id.user, id.explicit_group));
    assert(hands_over(tail, t.paths, id.user, id.explicit_group));
    lemma_hands_over_concat(p, tail, t.paths, id.user, id.explicit_group);
    assert forall|i: int| 0 <= i < t.pending.len() implies rank(#[trigger] t.pending[i]) >= 2 by {}
    lemma_acting(t, events);
    lemma_switches_none(p);
    lemma_switches_concat(p, tail);
    assert forall|i: int| 0 <= i < switch_ops(id).len() implies is_switch(
        #[trigger] switch_ops(id)[i],
    ) by {
        assert(rank(switch_ops(id)[i]) >= 3);
    }
    lemma_switches_all(switch_ops(id));
    lemma_switch_ops(id);
    assert(switches(p) + switches(tail) =~= switches(tail));
}

/// What a finished task has done, given whom it found.
pub open spec fn is_what_was_asked_for(
    user: Option<Seq<char>>,
    group: Option<Seq<char>>,
    paths: Seq<Seq<u8>>,
    switch: bool,
    events: Seq<PrivEventView>,
    u: Option<UserView>,
    g: Option<int>,
) -> bool {
    let t = new_task(user, group, paths, switch);
    let ops = performed(t, events);
    &&& are_asked_for(trace(t, events), user, group, u, g)
    &&& switches(ops) == (if switch {
        becoming(u, g)
    } else {
        Seq::empty()
    })
    &&& hands_over(ops, paths, u, g)
    &&& run(t, events).identity == (IdentityView { user: u, explicit_group: g })
    &&& user is None && group is None ==> ops == Seq::<PrivOpView>::empty()
}

/// A finished task has looked up the user and the group that were asked for, has
/// handed files over to them and to no one else, and has made the process become
/// them, in the right order and with nothing left out; or has left the identity
/// alone where only the files were to be handed over.
#[verifier::rlimit(60)]
pub proof fn a_finished_task_did_what_was_asked_for(
    user: Option<Seq<char>>,
    group: Option<Seq<char>>,
    paths: Seq<Seq<u8>>,
    switch: bool,
    events: Seq<PrivEventView>,
)
    requires
        current(run(new_task(user, group, paths, switch), events)) is Finished,
    ensures
        exists|u: Option<UserView>, g: Option<int>| #[trigger]
            is_what_was_asked_for(user, group, paths, switch, events, u, g),
{
    let t = new_task(user, group, paths, switch);
    let made = trace(t, events);
    let ops = performed(t, events);
    let numeric = numeric_group(group);
    let l = lookups(user, group);
    if l.len() == 0 {
        assert(user is None);
        lemma_acting_start(t, events);
        if group is None {
            lemma_switch_ops(t.identity);
            assert(t.pending =~= Seq::<PrivOpView>::empty());
            lemma_nothing_after_failure(t, events);
            assert(hands_over(ops, paths, None, None));
        }
        assert(is_what_was_asked_for(user, group, paths, switch, events, None, numeric));
    } else {
        let a = lemma_head(t, events);
        let next = answered(t, made[0].1).0;
        assert(t.pending[0] == l[0]);
        lemma_switches_concat(seq![t.pending[0]], performed(next, a));
        lemma_switches_none(seq![t.pending[0]]);
        assert(Seq::<PrivOpView>::empty() + switches(performed(next, a)) =~= switches(
            performed(next, a),
        ));
        if l.len() == 1 {
            assert(t.pending.skip(1).len() == 0);
            lemma_acting_start(next, a);
            let id = next.identity;
            lemma_hands_over_concat(
                seq![t.pending[0]],
                performed(next, a),
                paths,
                id.user,
                id.explicit_group,
            );
            assert(is_what_was_asked_for(
                user,
                group,
                paths,
                switch,
                events,
                id.user,
                id.explicit_group,
            ));
        } else {
            assert(t.pending.skip(1) =~= seq![l[1]]);
            assert(next.pending[0] == l[1]);
            let b = lemma_head(next, a);
            let m1 = trace(next, a);
            assert(made[1] == m1[0]);
            let last = answered(next, m1[0].1).0;
            assert(next.pending.skip(1).len() == 0);
            lemma_acting_start(last, b);
            let id = last.identity;
            lemma_switches_concat(seq![next.pending[0]], performed(last, b));
            lemma_switches_none(seq![next.pending[0]]);
            assert(Seq::<PrivOpView>::empty() + switches(performed(last, b)) =~= switches(
                performed(last, b),
            ));
            lemma_hands_over_concat(
                seq![next.pending[0]],
                performed(last, b),
                paths,
                id.user,
                id.explicit_group,
            );
            lemma_hands_over_concat(
                seq![t.pending[0]],
                performed(next, a),
                paths,
                id.user,
                id.explicit_group,
            );
            assert(is_what_was_asked_for(
                user,
                group,
                paths,
                switch,
                events,
                id.user,
                id.explicit_group,
            ));
        }
    }
}

proof fn lemma_switches_members(ops: Seq<PrivOpView>, op: PrivOpView)
    requires
        is_switch(op),
    ensures
        ops.contains(op) <==> switches(ops).contains(op),
    decreases ops.len(),
{
    if ops.len() > 0 {
        let rest = ops.skip(1);
        lemma_switches_members(rest, op);
        assert(ops =~= seq![ops[0]] + rest);
        if ops.contains(op) {
            let i = choose|i: int| 0 <= i < ops.len() && ops[i] == op;
            if i > 0 {
                assert(rest[i - 1] == op);
                let j = choose|j: int| 0 <= j < switches(rest).len() && switches(rest)[j] == op;
                if is_switch(ops[0]) {
                    assert(switches(ops)[j + 1] == op);
                }
            } else {
                assert(switches(ops)[0] == op);
            }
        }
        if switches(ops).contains(op) {
            let j = choose|j: int| 0 <= j < switches(ops).len() && switches(ops)[j] == op;
            if is_switch(ops[0]) {
                if j > 0 {
                    assert(switches(rest)[j - 1] == op);
                    let i = choose|i: int| 0 <= i < rest.len() && rest[i] == op;
                    assert(ops[i + 1] == op);
                }
            } else {
                let i = choose|i: int| 0 <= i < rest.len() && rest[i] == op;
                assert(ops[i + 1] == op);
            }
        }
    }
}

/// A group that is given by its number is the one that the process takes, with or
/// without a user, and the one that its files are handed to: no other group is set
/// or gets a file.
pub proof fn a_numeric_group_is_the_group(
    user: Option<Seq<char>>,
    group: Seq<char>,
    gid: nat,
    paths: Seq<Seq<u8>>,
    events: Seq<PrivEventView>,
)
    requires
        read_unsigned(group, 10, u32::MAX as nat) == Ok::<nat, NumberError>(gid),
        current(run(new_task(user, Some(group), paths, true), events)) is Finished,
    ensures
        performed(new_task(user, Some(group), paths, true), events).contains(
            PrivOpView::SetGid(gid as int),
        ),
        forall|i: int|
            0 <= i < performed(new_task(user, Some(group), paths, true), events).len() ==> {
                &&& (#[trigger] performed(new_task(user, Some(group), paths, true), events)[i]) matches
                    PrivOpView::SetGid(other) ==> other == gid
                &&& performed(new_task(user, Some(group), paths, true), events)[i] matches
                    PrivOpView::Chown { gid: other, .. } ==> other == Some(gid as int)
            },
{
    let t = new_task(user, Some(group), paths, true);
    let ops = performed(t, events);
    a_finished_task_did_what_was_asked_for(user, Some(group), paths, true, events);
    let (u, g) = choose|u: Option<UserView>, g: Option<int>| #[trigger]
        is_what_was_asked_for(user, Some(group), paths, true, events, u, g);
    let list = becoming(u, g);
    let set = PrivOpView::SetGid(gid as int);
    if u is None {
        assert(list[0] == set);
    } else {
        assert(list[1] == set);
    }
    lemma_switches_members(ops, set);
    assert forall|i: int| 0 <= i < ops.len() implies {
        &&& (#[trigger] ops[i]) matches PrivOpView::SetGid(other) ==> other == gid
        &&& ops[i] matches PrivOpView::Chown { gid: other, .. } ==> other == Some(gid as int)
    } by {
        if ops[i] is SetGid {
            assert(ops.contains(ops[i]));
            lemma_switches_members(ops, ops[i]);
            let j = choose|j: int| 0 <= j < list.len() && list[j] == ops[i];
            assert(j == 0 || j == 1);
        }
    }
}

/// Every file of a finished task that is there has been handed over to the user and
/// the group that were asked for.
pub proof fn every_file_goes_to_whom_was_asked_for(
    user: Option<Seq<char>>,
    group: Option<Seq<char>>,
    paths: Seq<Seq<u8>>,
    switch: bool,
    files: Set<Seq<u8>>,
    events: Seq<PrivEventView>,
    i: int,
    u: Option<UserView>,
    g: Option<int>,
)
    requires
        user is Some || group is Some,
        0 <= i < paths.len(),
        files.contains(paths[i]),
        tells_files(new_task(user, group, paths, switch), events, files),
        current(run(new_task(user, group, paths, switch), events)) is Finished,
        is_what_was_asked_for(user, group, paths, switch, events, u, g),
    ensures
        performed(new_task(user, group, paths, switch), events).contains(
            PrivOpView::Chown { path: paths[i], uid: owner(u), gid: owning_group(u, g) },
        ),
{
    every_file_is_handed_over(user, group, paths, switch, files, events, i);
}

// ---------------------------------------------------------------------------
// Success and failure
// ---------------------------------------------------------------------------

/// Whether `e` says that `op` came off. A user whose name holds a NUL cannot be
/// become.
pub open spec fn came_off(op: PrivOpView, e: PrivEventView) -> bool {
    match op {
        PrivOpView::LookUpUser(_) => e matches PrivEventView::User(UserReplyView::Found(u))
            && !encode_utf8(u.name).contains(0u8),
        PrivOpView::LookUpGroup(_) => e matches PrivEventView::Group(GroupReplyView::Found(_)),
        PrivOpView::Probe(_) => e is Present,
        _ => e is Done,
    }
}

/// Whether `events` say that everything came off.
pub open spec fn all_came_off(t: TaskView, events: Seq<PrivEventView>) -> bool
    decreases events.len(),
{
    if events.len() == 0 || t.pending.len() == 0 {
        true
    } else {
        &&& came_off(t.pending[0], events[0])
        &&& all_came_off(answered(t, events[0]).0, events.skip(1))
    }
}

/// The most operations that a pending one comes to.
pub open spec fn efforts(ops: Seq<PrivOpView>) -> nat
    decreases ops.len(),
{
    if ops.len() == 0 {
        0
    } else {
        (if ops[0] is Probe {
            2nat
        } else {
            1nat
        }) + efforts(ops.skip(1))
    }
}

proof fn lemma_efforts_bound(ops: Seq<PrivOpView>)
    ensures
        ops.len() <= efforts(ops) <= 2 * ops.len(),
    decreases ops.len(),
{
    if ops.len() > 0 {
        lemma_efforts_bound(ops.skip(1));
    }
}

/// The most operations that are left.
pub open spec fn work(t: TaskView) -> nat {
    if t.stage is LookingUp {
        t.pending.len() + 2 * (t.paths.len() + 6)
    } else {
        efforts(t.pending)
    }
}

spec fn good_names(t: TaskView) -> bool {
    &&& !(t.stage is Failed)
    &&& t.stage is LookingUp ==> t.pending.len() > 0
    &&& t.identity.user matches Some(u) ==> !encode_utf8(u.name).contains(0u8)
    &&& forall|i: int|
        0 <= i < t.pending.len() ==> ((#[trigger] t.pending[i]) matches PrivOpView::InitGroups {
            name,
            ..
        } ==> !encode_utf8(name).contains(0u8))
}

proof fn lemma_no_nul(bytes: Seq<u8>)
    ensures
        nul_position(bytes) is None <==> !bytes.contains(0u8),
        nul_position(bytes) matches Some(i) ==> i < bytes.len() && bytes[i as int] == 0
            && !bytes.take(i as int).contains(0u8),
    decreases bytes.len(),
{
    if bytes.len() > 0 {
        let rest = bytes.skip(1);
        lemma_no_nul(rest);
        if bytes[0] == 0 {
            assert(bytes.contains(0u8));
        } else {
            if bytes.contains(0u8) {
                let i = choose|i: int| 0 <= i < bytes.len() && bytes[i] == 0u8;
                assert(rest[i - 1] == 0u8);
            }
            if let Some(k) = nul_position(rest) {
                assert(bytes[k as int + 1] == rest[k as int]);
                let before = bytes.take(k as int + 1);
                if before.contains(0u8) {
                    let i = choose|i: int| 0 <= i < before.len() && before[i] == 0u8;
                    assert(rest.take(k as int)[i - 1] == 0u8);
                }
            }
        }
    }
}

proof fn lemma_action_names(paths: Seq<Seq<u8>>, switch: bool, id: IdentityView, i: int)
    requires
        0 <= i < actions(paths, switch, id).len(),
        actions(paths, switch, id)[i] is InitGroups,
    ensures
        id.user is Some,
        actions(paths, switch, id)[i]->InitGroups_name == id.user->0.name,
{
    let p = probes(paths);
    let ops = switch_ops(id);
    if i < p.len() {
        assert(actions(paths, switch, id)[i] == p[i]);
    } else {
        assert(actions(paths, switch, id)[i] == ops[i - p.len()]);
        lemma_switch_ops(id);
    }
}

proof fn lemma_action_count(paths: Seq<Seq<u8>>, switch: bool, id: IdentityView)
    ensures
        actions(paths, switch, id).len() <= paths.len() + 6,
{
    lemma_switch_ops(id);
}

#[verifier::rlimit(40)]
proof fn lemma_resumed_names(t: TaskView)
    requires
        !(t.stage is Failed),
        t.identity.user matches Some(u) ==> !encode_utf8(u.name).contains(0u8),
        forall|i: int|
            0 <= i < t.pending.len() ==> ((#[trigger] t.pending[i]) matches PrivOpView::InitGroups {
                name,
                ..
            } ==> !encode_utf8(name).contains(0u8)),
    ensures
        good_names(go_on(t).0),
        go_on(t).1 is None,
        go_on(t).0.paths == t.paths,
        t.stage is LookingUp && t.pending.len() == 0 ==> go_on(t).0.stage is Acting
            && go_on(t).0.pending.len() <= t.paths.len() + 6,
        !(t.stage is LookingUp && t.pending.len() == 0) ==> go_on(t).0 == t,
{
    let s = crate::privileges::resumed(t);
    lemma_action_count(t.paths, t.switch, t.identity);
    assert forall|i: int| 0 <= i < s.pending.len() implies ((#[trigger] s.pending[i]) matches
        PrivOpView::InitGroups { name, .. } ==> !encode_utf8(name).contains(0u8)) by {
        if t.stage is LookingUp && t.pending.len() == 0 && s.pending[i] is InitGroups {
            lemma_action_names(t.paths, t.switch, t.identity, i);
        }
    }
    if s.pending.len() > 0 && s.pending[0] is InitGroups {
        lemma_no_nul(encode_utf8(s.pending[0]->InitGroups_name));
    }
}

#[verifier::rlimit(40)]
proof fn lemma_success_step(t: TaskView, e: PrivEventView)
    requires
        good_names(t),
        orderly(t),
        t.pending.len() > 0,
        came_off(t.pending[0], e),
    ensures
        good_names(answered(t, e).0),
        work(answered(t, e).0) < work(t),
        answered(t, e).1 is None,
{
    let op = t.pending[0];
    let rest = t.pending.skip(1);
    let next = answered(t, e).0;
    assert(forall|i: int| 0 <= i < rest.len() ==> rest[i] == t.pending[i + 1]);
    assert(efforts(t.pending) == (if op is Probe {
        2nat
    } else {
        1nat
    }) + efforts(rest));
    let plain = TaskView { pending: rest, ..t };
    match (op, e) {
        (PrivOpView::LookUpUser(_), PrivEventView::User(UserReplyView::Found(u))) => {
            let s = TaskView { identity: IdentityView { user: Some(u), ..t.identity }, ..plain };
            lemma_resumed_names(s);
            assert(t.stage is LookingUp) by {
                assert(rank(t.pending[0]) == 0);
            }
            lemma_efforts_bound(next.pending);
        },
        (PrivOpView::LookUpGroup(_), PrivEventView::Group(GroupReplyView::Found(g))) => {
            let s = TaskView {
                identity: IdentityView { explicit_group: Some(g), ..t.identity },
                ..plain
            };
            lemma_resumed_names(s);
            assert(t.stage is LookingUp) by {
                assert(rank(t.pending[0]) == 1);
            }
            lemma_efforts_bound(next.pending);
        },
        (PrivOpView::Probe(path), PrivEventView::Present(true)) => {
            assert(rank(t.pending[0]) == 2);
            assert(t.stage is Acting);
            let found = seq![hand_over(path, t.identity)] + rest;
            lemma_resumed_names(TaskView { pending: found, ..t });
            assert(found.skip(1) =~= rest);
            assert(efforts(found) == 1 + efforts(rest));
        },
        _ => {
            assert(rank(t.pending[0]) >= 2);
            assert(t.stage is Acting);
            lemma_resumed_names(plain);
        },
    }
}

proof fn lemma_success(t: TaskView, events: Seq<PrivEventView>)
    requires
        good_names(t),
        orderly(t),
        all_came_off(t, events),
        events.len() >= work(t),
    ensures
        current(run(t, events)) is Finished,
    decreases events.len(),
{
    if t.pending.len() == 0 {
        lemma_stays_finished(t, events);
    } else {
        lemma_efforts_bound(t.pending);
        lemma_success_step(t, events[0]);
        lemma_answer_orderly(t, events[0]);
        lemma_success(answered(t, events[0]).0, events.skip(1));
    }
}

/// A task is finished when everything came off, after as many operations as there
/// are lookups, files and changes of the identity.
pub proof fn success_finishes_the_task(
    user: Option<Seq<char>>,
    group: Option<Seq<char>>,
    paths: Seq<Seq<u8>>,
    switch: bool,
    events: Seq<PrivEventView>,
)
    requires
        all_came_off(new_task(user, group, paths, switch), events),
        events.len() >= work(new_task(user, group, paths, switch)),
    ensures
        current(run(new_task(user, group, paths, switch), events)) is Finished,
{
    let t = new_task(user, group, paths, switch);
    lemma_new_orderly(user, group, paths, switch);
    assert(good_names(t)) by {
        if lookups(user, group).len() == 0 {
            assert(user is None);
        }
    }
    lemma_success(t, events);
}

/// What is said of an operation that did not come off: who could not be found, and
/// why; which file could not be handed over; or which change was refused. It ends in
/// the words of the system.
pub open spec fn complaint(op: PrivOpView, e: PrivEventView) -> Option<ErrorView> {
    match (op, e) {
        (PrivOpView::LookUpUser(q), PrivEventView::User(UserReplyView::Missing)) => Some(
            ErrorView::UserNotFound(
                match q {
                    UserQueryView::ById(uid) => "uid "@ + decimal(uid),
                    UserQueryView::ByName(name) => name,
                },
            ),
        ),
        (PrivOpView::LookUpUser(q), PrivEventView::User(UserReplyView::Failed(text))) => Some(
            ErrorView::UserNotFound(
                match q {
                    UserQueryView::ById(uid) => "getpwuid("@ + decimal(uid) + "): "@ + text,
                    UserQueryView::ByName(name) => "getpwnam("@ + name + "): "@ + text,
                },
            ),
        ),
        (PrivOpView::LookUpGroup(name), PrivEventView::Group(GroupReplyView::Missing)) => Some(
            ErrorView::GroupNotFound(name),
        ),
        (PrivOpView::LookUpGroup(name), PrivEventView::Group(GroupReplyView::Failed(text))) => Some(
            ErrorView::GroupNotFound("getgrnam("@ + name + "): "@ + text),
        ),
        (PrivOpView::Chown { path, .. }, PrivEventView::Failed(text)) => Some(
            ErrorView::ChownError(utf8_lossy(path) + ": "@ + text),
        ),
        (PrivOpView::InitGroups { .. }, PrivEventView::Failed(text)) => Some(
            ErrorView::PermissionDenied("initgroups: "@ + text),
        ),
        (PrivOpView::SetGid(_), PrivEventView::Failed(text)) => Some(
            ErrorView::PermissionDenied("setgid: "@ + text),
        ),
        (PrivOpView::SetUid(_), PrivEventView::Failed(text)) => Some(
            ErrorView::PermissionDenied("setuid: "@ + text),
        ),
        _ => None,
    }
}

/// What does not come off abandons the task with the right error, and nothing more
/// is done.
pub proof fn a_failed_operation_abandons_the_task(
    t: TaskView,
    e: PrivEventView,
    more: Seq<PrivEventView>,
)
    requires
        t.pending.len() > 0,
        complaint(t.pending[0], e) is Some,
    ensures
        answered(t, e).1 == complaint(t.pending[0], e),
        current(answered(t, e).0) is Abandoned,
        performed(answered(t, e).0, more) == Seq::<PrivOpView>::empty(),
        current(run(answered(t, e).0, more)) is Abandoned,
{
    lemma_nothing_after_failure(answered(t, e).0, more);
    lemma_stays_failed(answered(t, e).0, more);
}

/// A user whose name holds a NUL is not become: the task ends with an error that
/// says where the NUL stands, before anything of the identity is changed. Any other
/// name is no problem.
pub proof fn a_name_with_a_nul_is_refused(name: Seq<char>, i: int)
    requires
        0 <= i < encode_utf8(name).len(),
        encode_utf8(name)[i] == 0,
        !encode_utf8(name).take(i).contains(0u8),
    ensures
        name_problem(name) == Some(
            ErrorView::UserNotFound(
                "invalid username: "@ + "nul byte found in provided data at position: "@ + decimal(i),
            ),
        ),
        forall|t: TaskView|
            t.stage is Acting && t.pending.len() > 0 && t.pending[0] is InitGroups
                && t.pending[0]->InitGroups_name == name ==> (#[trigger] go_on(t)).1
                == name_problem(name) && current(go_on(t).0) is Abandoned,
{
    let bytes = encode_utf8(name);
    lemma_no_nul(bytes);
    assert(bytes.contains(bytes[i]));
    let k = nul_position(bytes)->0;
    if k < i {
        assert(bytes.take(i)[k as int] == 0u8);
    } else if i < k {
        assert(bytes.take(k as int)[i] == 0u8);
    }
}

/// A user name without a NUL is no problem.
pub proof fn a_name_without_a_nul_is_accepted(name: Seq<char>)
    requires
        !encode_utf8(name).contains(0u8),
    ensures
        name_problem(name) is None,
{
    lemma_no_nul(encode_utf8(name));
}

/// A context takes note of a change of user and group exactly if the task was to
/// change them, to the ones in question, and is finished.
pub proof fn only_a_finished_switch_counts(
    user: Option<Seq<char>>,
    group: Option<Seq<char>>,
    paths: Seq<Seq<u8>>,
    switch: bool,
    events: Seq<PrivEventView>,
    wanted_user: Option<Seq<char>>,
    wanted_group: Option<Seq<char>>,
)
    ensures
        switched_to(
            run(new_task(user, group, paths, switch), events),
            wanted_user,
            wanted_group,
        ) <==> switch && user == wanted_user && group == wanted_group && current(
            run(new_task(user, group, paths, switch), events),
        ) is Finished,
{
    lemma_keeps_terms(new_task(user, group, paths, switch), events);
}

proof fn lemma_keeps_terms(t: TaskView, events: Seq<PrivEventView>)
    ensures
        run(t, events).user == t.user,
        run(t, events).group == t.group,
        run(t, events).switch == t.switch,
    decreases events.len(),
{
    if events.len() > 0 {
        lemma_keeps_terms(answered(t, events[0]).0, events.skip(1));
    }
}

} // verus!
