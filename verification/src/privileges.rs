//! Handing files over to another user and becoming that user, one system call
//! at a time.

use vstd::prelude::*;
use vstd::utf8::*;
use crate::errno::OsFailure;
use crate::error::{opt_error, DaemonizeError, ErrorView};
use crate::identity::{
    check_name, group_of, group_query, name_problem, opt_int, resolve_group_gid, resolve_user,
    user_of, user_query, GroupQuery, GroupQueryView, GroupReply, GroupReplyView, IdentityView,
    ResolvedIdentity, UserQuery, UserQueryView, UserReply, UserReplyView,
};
use crate::path::{clone_bytes, paths_view, utf8_lossy, UnixPath};
use crate::text::{cat, cat3, clone_text, opt_text};

verus! {

/// One thing to be done or found out.
#[derive(Debug, PartialEq, Eq)]
pub enum PrivOp {
    /// Look up a user.
    LookUpUser(UserQuery),
    /// Look up a group by name.
    LookUpGroup(String),
    /// Find out whether something exists at the path.
    Probe(UnixPath),
    /// Change the owner and group of a file; `None` leaves it as it is.
    Chown { path: UnixPath, uid: Option<u32>, gid: Option<u32> },
    /// Take over the supplementary groups of a user, and the primary one.
    InitGroups { name: String, primary: u32 },
    SetGid(u32),
    SetUid(u32),
    /// Set an environment variable.
    SetEnv { key: String, value: Vec<u8> },
}

/// What came of it.
#[derive(Debug)]
pub enum PrivEvent {
    User(UserReply),
    Group(GroupReply),
    Present(bool),
    Done,
    Failed(OsFailure),
}

/// What is to be done next.
#[derive(Debug, PartialEq, Eq)]
pub enum PrivStep {
    Perform(PrivOp),
    /// Everything is done.
    Finished,
    /// Something failed before; nothing more is done.
    Abandoned,
}

/// A [`PrivOp`] as a mathematical value.
pub enum PrivOpView {
    LookUpUser(UserQueryView),
    LookUpGroup(Seq<char>),
    Probe(Seq<u8>),
    Chown { path: Seq<u8>, uid: Option<int>, gid: Option<int> },
    InitGroups { name: Seq<char>, primary: int },
    SetGid(int),
    SetUid(int),
    SetEnv { key: Seq<char>, value: Seq<u8> },
}

/// A [`PrivEvent`] as a mathematical value.
pub enum PrivEventView {
    User(UserReplyView),
    Group(GroupReplyView),
    Present(bool),
    Done,
    Failed(Seq<char>),
}

/// A [`PrivStep`] as a mathematical value.
pub enum PrivStepView {
    Perform(PrivOpView),
    Finished,
    Abandoned,
}

impl View for PrivOp {
    type V = PrivOpView;

    open spec fn view(&self) -> PrivOpView {
        match self {
            PrivOp::LookUpUser(q) => PrivOpView::LookUpUser(q@),
            PrivOp::LookUpGroup(s) => PrivOpView::LookUpGroup(s@),
            PrivOp::Probe(p) => PrivOpView::Probe(p@),
            PrivOp::Chown { path, uid, gid } => PrivOpView::Chown {
                path: path@,
                uid: opt_int(*uid),
                gid: opt_int(*gid),
            },
            PrivOp::InitGroups { name, primary } => PrivOpView::InitGroups {
                name: name@,
                primary: *primary as int,
            },
            PrivOp::SetGid(g) => PrivOpView::SetGid(*g as int),
            PrivOp::SetUid(u) => PrivOpView::SetUid(*u as int),
            PrivOp::SetEnv { key, value } => PrivOpView::SetEnv { key: key@, value: value@ },
        }
    }
}

impl View for PrivEvent {
    type V = PrivEventView;

    open spec fn view(&self) -> PrivEventView {
        match self {
            PrivEvent::User(r) => PrivEventView::User(r@),
            PrivEvent::Group(r) => PrivEventView::Group(r@),
            PrivEvent::Present(b) => PrivEventView::Present(*b),
            PrivEvent::Done => PrivEventView::Done,
            PrivEvent::Failed(f) => PrivEventView::Failed(f.text@),
        }
    }
}

impl View for PrivStep {
    type V = PrivStepView;

    open spec fn view(&self) -> PrivStepView {
        match self {
            PrivStep::Perform(op) => PrivStepView::Perform(op@),
            PrivStep::Finished => PrivStepView::Finished,
            PrivStep::Abandoned => PrivStepView::Abandoned,
        }
    }
}

/// How far a task has come.
#[derive(Debug, Clone, Copy, PartialEq, Eq, Structural)]
pub enum TaskStage {
    /// The user and the group are being looked up.
    LookingUp,
    /// The files are being handed over and the identity is being changed.
    Acting,
    /// Something failed.
    Failed,
}

/// A [`PrivilegeTask`] as a mathematical value.
pub struct TaskView {
    /// The user to change to, as specified.
    pub user: Option<Seq<char>>,
    /// The group to change to, as specified.
    pub group: Option<Seq<char>>,
    /// The files to hand over.
    pub paths: Seq<Seq<u8>>,
    /// Whether the identity is changed as well.
    pub switch: bool,
    /// What has been looked up so far.
    pub identity: IdentityView,
    pub stage: TaskStage,
    /// What is still to be done, in order.
    pub pending: Seq<PrivOpView>,
}

/// How the identity is changed: the supplementary groups first, then the group,
/// then the user, and at last the variables that name the user.
pub open spec fn switch_ops(id: IdentityView) -> Seq<PrivOpView> {
    let groups = match id.user {
        Some(u) => seq![PrivOpView::InitGroups { name: u.name, primary: u.gid }],
        None => Seq::empty(),
    };
    let group = match id.effective_gid() {
        Some(g) => seq![PrivOpView::SetGid(g)],
        None => Seq::empty(),
    };
    let user = match id.user {
        Some(u) => seq![
            PrivOpView::SetUid(u.uid),
            PrivOpView::SetEnv { key: "USER"@, value: encode_utf8(u.name) },
            PrivOpView::SetEnv { key: "HOME"@, value: u.dir },
            PrivOpView::SetEnv { key: "LOGNAME"@, value: encode_utf8(u.name) },
        ],
        None => Seq::empty(),
    };
    groups + group + user
}

/// Looking whether each of the files is there.
pub open spec fn probes(paths: Seq<Seq<u8>>) -> Seq<PrivOpView> {
    Seq::new(paths.len(), |i: int| PrivOpView::Probe(paths[i]))
}

/// What is done once the identity is known: the files, then the switch.
pub open spec fn actions(paths: Seq<Seq<u8>>, switch: bool, id: IdentityView) -> Seq<PrivOpView> {
    probes(paths) + (if switch {
        switch_ops(id)
    } else {
        Seq::empty()
    })
}

/// What has to be looked up.
pub open spec fn lookups(user: Option<Seq<char>>, group: Option<Seq<char>>) -> Seq<PrivOpView> {
    let first = match user {
        Some(s) => seq![PrivOpView::LookUpUser(user_query(s))],
        None => Seq::empty(),
    };
    let second = match group {
        Some(s) => match group_query(s) {
            GroupQueryView::ByName(name) => seq![PrivOpView::LookUpGroup(name)],
            GroupQueryView::Id(_) => Seq::empty(),
        },
        None => Seq::empty(),
    };
    first + second
}

/// The group that is known without looking it up.
pub open spec fn numeric_group(group: Option<Seq<char>>) -> Option<int> {
    match group {
        Some(s) => match group_query(s) {
            GroupQueryView::Id(n) => Some(n),
            GroupQueryView::ByName(_) => None,
        },
        None => None,
    }
}

/// Goes on to the actions when nothing is left to be looked up.
pub open spec fn resumed(t: TaskView) -> TaskView {
    if t.stage is LookingUp && t.pending.len() == 0 {
        TaskView {
            stage: TaskStage::Acting,
            pending: actions(t.paths, t.switch, t.identity),
            ..t
        }
    } else {
        t
    }
}

/// The task at its start. Without user and group there is nothing to do.
pub open spec fn new_task(
    user: Option<Seq<char>>,
    group: Option<Seq<char>>,
    paths: Seq<Seq<u8>>,
    switch: bool,
) -> TaskView {
    resumed(
        TaskView {
            user,
            group,
            paths: if user is None && group is None {
                Seq::empty()
            } else {
                paths
            },
            switch,
            identity: IdentityView { user: None, explicit_group: numeric_group(group) },
            stage: TaskStage::LookingUp,
            pending: lookups(user, group),
        },
    )
}

/// The task after a failure.
pub open spec fn abandoned(t: TaskView) -> TaskView {
    TaskView { stage: TaskStage::Failed, pending: Seq::empty(), ..t }
}

/// Whether `e` can be what came of `op`.
pub open spec fn fits(op: PrivOpView, e: PrivEventView) -> bool {
    match op {
        PrivOpView::LookUpUser(_) => e is User,
        PrivOpView::LookUpGroup(_) => e is Group,
        PrivOpView::Probe(_) => e is Present,
        PrivOpView::SetEnv { .. } => e is Done,
        _ => e is Done || e is Failed,
    }
}

/// The error that a failed operation means.
pub open spec fn op_error(op: PrivOpView, text: Seq<char>) -> ErrorView {
    match op {
        PrivOpView::Chown { path, .. } => ErrorView::ChownError(utf8_lossy(path) + ": "@ + text),
        PrivOpView::InitGroups { .. } => ErrorView::PermissionDenied("initgroups: "@ + text),
        PrivOpView::SetGid(_) => ErrorView::PermissionDenied("setgid: "@ + text),
        _ => ErrorView::PermissionDenied("setuid: "@ + text),
    }
}

/// Goes on, unless the user's name cannot be handed to the system.
pub open spec fn go_on(t: TaskView) -> (TaskView, Option<ErrorView>) {
    let s = resumed(t);
    if s.pending.len() > 0 && s.pending[0] is InitGroups && name_problem(
        s.pending[0]->InitGroups_name,
    ) is Some {
        (abandoned(s), name_problem(s.pending[0]->InitGroups_name))
    } else {
        (s, None)
    }
}

/// The task after `e` came of what was to be done, and the error if it was one.
/// What cannot have come of it changes nothing.
pub open spec fn answered(t: TaskView, e: PrivEventView) -> (TaskView, Option<ErrorView>) {
    if t.pending.len() == 0 || !fits(t.pending[0], e) {
        (t, None)
    } else {
        let op = t.pending[0];
        let rest = TaskView { pending: t.pending.skip(1), ..t };
        match (op, e) {
            (PrivOpView::LookUpUser(q), PrivEventView::User(reply)) => match user_of(q, reply) {
                Ok(u) => go_on(
                    TaskView { identity: IdentityView { user: Some(u), ..t.identity }, ..rest },
                ),
                Err(error) => (abandoned(t), Some(error)),
            },
            (PrivOpView::LookUpGroup(name), PrivEventView::Group(reply)) => match group_of(
                name,
                reply,
            ) {
                Ok(g) => go_on(
                    TaskView {
                        identity: IdentityView { explicit_group: Some(g), ..t.identity },
                        ..rest
                    },
                ),
                Err(error) => (abandoned(t), Some(error)),
            },
            (PrivOpView::Probe(path), PrivEventView::Present(present)) => go_on(
                if present {
                    TaskView {
                        pending: seq![
                            PrivOpView::Chown {
                                path,
                                uid: t.identity.uid(),
                                gid: t.identity.effective_gid(),
                            },
                        ] + rest.pending,
                        ..t
                    }
                } else {
                    rest
                },
            ),
            (_, PrivEventView::Failed(text)) => (abandoned(t), Some(op_error(op, text))),
            _ => go_on(rest),
        }
    }
}

/// What is to be done next.
pub open spec fn current(t: TaskView) -> PrivStepView {
    if t.stage is Failed {
        PrivStepView::Abandoned
    } else if t.pending.len() == 0 {
        PrivStepView::Finished
    } else {
        PrivStepView::Perform(t.pending[0])
    }
}

/// Whether a finished task has changed the process to the given user and group.
pub open spec fn switched_to(t: TaskView, user: Option<Seq<char>>, group: Option<Seq<char>>) -> bool {
    t.switch && current(t) is Finished && t.user == user && t.group == group
}

/// Operations as mathematical values.
pub open spec fn ops_view(v: Seq<PrivOp>) -> Seq<PrivOpView> {
    Seq::new(v.len(), |i: int| v[i]@)
}

/// Handing files over to another user, and becoming that user.
///
/// The caller performs what [`step`](PrivilegeTask::step) says and reports with
/// [`answer`](PrivilegeTask::answer) what came of it, until it is finished or
/// has failed.
#[derive(Debug)]
pub struct PrivilegeTask {
    user: Option<String>,
    group: Option<String>,
    paths: Vec<UnixPath>,
    switch: bool,
    identity: ResolvedIdentity,
    stage: TaskStage,
    pending: Vec<PrivOp>,
}

impl View for PrivilegeTask {
    type V = TaskView;

    closed spec fn view(&self) -> TaskView {
        TaskView {
            user: opt_text(self.user),
            group: opt_text(self.group),
            paths: paths_view(self.paths@),
            switch: self.switch,
            identity: self.identity@,
            stage: self.stage,
            pending: ops_view(self.pending@),
        }
    }
}

fn same_text(a: &Option<String>, b: &Option<String>) -> (r: bool)
    ensures
        r == (opt_text(*a) == opt_text(*b)),
{
    match (a, b) {
        (Some(x), Some(y)) => *x == *y,
        (None, None) => true,
        _ => false,
    }
}

fn copy_op(op: &PrivOp) -> (r: PrivOp)
    ensures
        r@ == op@,
{
    match op {
        PrivOp::LookUpUser(q) => PrivOp::LookUpUser(
            match q {
                UserQuery::ById(n) => UserQuery::ById(*n),
                UserQuery::ByName(s) => UserQuery::ByName(s.clone()),
            },
        ),
        PrivOp::LookUpGroup(s) => PrivOp::LookUpGroup(s.clone()),
        PrivOp::Probe(p) => PrivOp::Probe(p.clone()),
        PrivOp::Chown { path, uid, gid } => PrivOp::Chown {
            path: path.clone(),
            uid: *uid,
            gid: *gid,
        },
        PrivOp::InitGroups { name, primary } => PrivOp::InitGroups {
            name: name.clone(),
            primary: *primary,
        },
        PrivOp::SetGid(g) => PrivOp::SetGid(*g),
        PrivOp::SetUid(u) => PrivOp::SetUid(*u),
        PrivOp::SetEnv { key, value } => PrivOp::SetEnv {
            key: key.clone(),
            value: clone_bytes(value.as_slice()),
        },
    }
}

fn text_bytes(s: &str) -> (r: Vec<u8>)
    ensures
        r@ == encode_utf8(s@),
{
    clone_bytes(s.as_bytes())
}

fn push_switch_ops(out: &mut Vec<PrivOp>, id: &ResolvedIdentity)
    ensures
        ops_view(final(out)@) == ops_view(old(out)@) + switch_ops(id@),
{
    let ghost before = out@;
    match &id.user {
        Some(u) => {
            out.push(PrivOp::InitGroups { name: u.name.clone(), primary: u.gid });
        },
        None => {},
    }
    match id.effective_gid() {
        Some(g) => {
            out.push(PrivOp::SetGid(g));
        },
        None => {},
    }
    match &id.user {
        Some(u) => {
            out.push(PrivOp::SetUid(u.uid));
            out.push(
                PrivOp::SetEnv { key: "USER".to_owned(), value: text_bytes(u.name.as_str()) },
            );
            out.push(
                PrivOp::SetEnv { key: "HOME".to_owned(), value: clone_bytes(u.dir.as_bytes()) },
            );
            out.push(
                PrivOp::SetEnv { key: "LOGNAME".to_owned(), value: text_bytes(u.name.as_str()) },
            );
        },
        None => {},
    }
    assert(ops_view(out@) =~= ops_view(before) + switch_ops(id@));
}

fn action_ops(paths: &Vec<UnixPath>, switch: bool, id: &ResolvedIdentity) -> (r: Vec<PrivOp>)
    ensures
        ops_view(r@) == actions(paths_view(paths@), switch, id@),
{
    let mut out: Vec<PrivOp> = Vec::new();
    let mut i: usize = 0;
    while i < paths.len()
        invariant
            i <= paths@.len(),
            out@.len() == i,
            forall|j: int| 0 <= j < i ==> (#[trigger] out@[j])@ == PrivOpView::Probe(paths@[j]@),
        decreases paths@.len() - i,
    {
        out.push(PrivOp::Probe(paths[i].clone()));
        i = i + 1;
    }
    assert(ops_view(out@) =~= probes(paths_view(paths@)));
    if switch {
        push_switch_ops(&mut out, id);
    }
    assert(ops_view(out@) =~= actions(paths_view(paths@), switch, id@));
    out
}

impl PrivilegeTask {
    fn resume(&mut self)
        ensures
            final(self)@ == resumed(old(self)@),
    {
        match self.stage {
            TaskStage::LookingUp => {
                if self.pending.len() == 0 {
                    self.pending = action_ops(&self.paths, self.switch, &self.identity);
                    self.stage = TaskStage::Acting;
                }
            },
            _ => {},
        }
    }

    fn abandon(&mut self)
        ensures
            final(self)@ == abandoned(old(self)@),
    {
        self.stage = TaskStage::Failed;
        self.pending = Vec::new();
        assert(self@.pending =~= Seq::<PrivOpView>::empty());
    }

    fn proceed(&mut self) -> (r: Option<DaemonizeError>)
        ensures
            go_on(old(self)@) == (final(self)@, opt_error(r)),
    {
        self.resume();
        let mut problem: Option<DaemonizeError> = None;
        if self.pending.len() > 0 {
            assert(self@.pending[0] == self.pending@[0]@);
            match &self.pending[0] {
                PrivOp::InitGroups { name, .. } => {
                    match check_name(name.as_str()) {
                        Ok(()) => {},
                        Err(e) => {
                            problem = Some(e);
                        },
                    }
                },
                _ => {},
            }
        }
        if problem.is_some() {
            self.abandon();
        }
        problem
    }

    /// A task that hands `paths` over to the user and group, and changes to them
    /// if `switch` is set.
    pub fn new(
        user: &Option<String>,
        group: &Option<String>,
        paths: Vec<UnixPath>,
        switch: bool,
    ) -> (r: PrivilegeTask)
        ensures
            r@ == new_task(
                opt_text(*user),
                opt_text(*group),
                paths_view(paths@),
                switch,
            ),
    {
        let mut pending: Vec<PrivOp> = Vec::new();
        let mut explicit_group: Option<u32> = None;
        match user {
            Some(s) => pending.push(PrivOp::LookUpUser(UserQuery::of(s.as_str()))),
            None => {},
        }
        match group {
            Some(s) => match GroupQuery::of(s.as_str()) {
                GroupQuery::Id(n) => {
                    explicit_group = Some(n);
                },
                GroupQuery::ByName(name) => pending.push(PrivOp::LookUpGroup(name)),
            },
            None => {},
        }
        assert(ops_view(pending@) =~= lookups(
            opt_text(*user),
            opt_text(*group),
        ));
        let files: Vec<UnixPath> = if user.is_none() && group.is_none() {
            Vec::new()
        } else {
            paths
        };
        assert(user is None && group is None ==> paths_view(files@) =~= Seq::<Seq<u8>>::empty());
        let mut task = PrivilegeTask {
            user: clone_text(user),
            group: clone_text(group),
            paths: files,
            switch,
            identity: ResolvedIdentity { user: None, explicit_group },
            stage: TaskStage::LookingUp,
            pending,
        };
        task.resume();
        task
    }

    /// What is to be done next.
    pub fn step(&self) -> (r: PrivStep)
        ensures
            r@ == current(self@),
    {
        match self.stage {
            TaskStage::Failed => PrivStep::Abandoned,
            _ => if self.pending.len() == 0 {
                PrivStep::Finished
            } else {
                PrivStep::Perform(copy_op(&self.pending[0]))
            },
        }
    }

    /// Whether everything is done and the process has changed to these two.
    pub fn has_switched_to(&self, user: &Option<String>, group: &Option<String>) -> (r: bool)
        ensures
            r == switched_to(self@, opt_text(*user), opt_text(*group)),
    {
        match self.stage {
            TaskStage::Failed => false,
            _ => self.switch && self.pending.len() == 0 && same_text(&self.user, user) && same_text(
                &self.group,
                group,
            ),
        }
    }

    /// Takes what came of the operation that was to be performed, and returns the
    /// error if it was one. What cannot have come of it is ignored.
    pub fn answer(&mut self, event: PrivEvent) -> (r: Option<DaemonizeError>)
        ensures
            answered(old(self)@, event@) == (final(self)@, opt_error(r)),
    {
        if self.pending.len() == 0 {
            return None;
        }
        let op = copy_op(&self.pending[0]);
        let ghost start = self@;
        assert(start.pending[0] == op@);
        assert(forall|s: Seq<PrivOp>|
            s.len() > 0 ==> #[trigger] ops_view(s.remove(0)) =~= ops_view(s).skip(1));
        match (op, event) {
            (PrivOp::LookUpUser(q), PrivEvent::User(reply)) => match resolve_user(&q, reply) {
                Ok(u) => {
                    self.pending.remove(0);
                    self.identity.user = Some(u);
                    self.proceed()
                },
                Err(e) => {
                    self.abandon();
                    Some(e)
                },
            },
            (PrivOp::LookUpGroup(name), PrivEvent::Group(reply)) => match resolve_group_gid(
                name.as_str(),
                reply,
            ) {
                Ok(g) => {
                    self.pending.remove(0);
                    self.identity.explicit_group = Some(g);
                    self.proceed()
                },
                Err(e) => {
                    self.abandon();
                    Some(e)
                },
            },
            (PrivOp::Probe(path), PrivEvent::Present(present)) => {
                self.pending.remove(0);
                if present {
                    let (uid, gid) = self.identity.chown_ids();
                    let ghost rest = self.pending@;
                    self.pending.insert(0, PrivOp::Chown { path, uid, gid });
                    assert(ops_view(self.pending@) =~= seq![
                        PrivOpView::Chown {
                            path: path@,
                            uid: start.identity.uid(),
                            gid: start.identity.effective_gid(),
                        },
                    ] + ops_view(rest));
                }
                self.proceed()
            },
            (PrivOp::Chown { path, .. }, PrivEvent::Failed(f)) => {
                self.abandon();
                Some(
                    DaemonizeError::ChownError(
                        cat3(path.display().as_str(), ": ", f.text.as_str()),
                    ),
                )
            },
            (PrivOp::InitGroups { .. }, PrivEvent::Failed(f)) => {
                self.abandon();
                Some(DaemonizeError::PermissionDenied(cat("initgroups: ", f.text.as_str())))
            },
            (PrivOp::SetGid(_), PrivEvent::Failed(f)) => {
                self.abandon();
                Some(DaemonizeError::PermissionDenied(cat("setgid: ", f.text.as_str())))
            },
            (PrivOp::SetUid(_), PrivEvent::Failed(f)) => {
                self.abandon();
                Some(DaemonizeError::PermissionDenied(cat("setuid: ", f.text.as_str())))
            },
            (PrivOp::LookUpUser(_), _) => None,
            (PrivOp::LookUpGroup(_), _) => None,
            (PrivOp::Probe(_), _) => None,
            (_, PrivEvent::Done) => {
                self.pending.remove(0);
                self.proceed()
            },
            _ => None,
        }
    }
}

} // verus!
