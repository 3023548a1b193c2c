//! Users and groups: specifications by name or number, and what they resolve to.

use vstd::prelude::*;
use vstd::utf8::*;
use crate::error::{DaemonizeError, ErrorView};
use crate::path::UnixPath;
use crate::text::{cat, cat3, cat4, decimal, decimal_of, parse_unsigned, read_unsigned};

verus! {

/// How a user is looked up.
#[derive(Debug, PartialEq, Eq)]
pub enum UserQuery {
    ById(u32),
    ByName(String),
}

/// How a group is found: a number is taken as it is, a name is looked up.
#[derive(Debug, PartialEq, Eq)]
pub enum GroupQuery {
    Id(u32),
    ByName(String),
}

/// A [`UserQuery`] as a mathematical value.
pub enum UserQueryView {
    ById(int),
    ByName(Seq<char>),
}

/// A [`GroupQuery`] as a mathematical value.
pub enum GroupQueryView {
    Id(int),
    ByName(Seq<char>),
}

impl View for UserQuery {
    type V = UserQueryView;

    open spec fn view(&self) -> UserQueryView {
        match self {
            UserQuery::ById(n) => UserQueryView::ById(*n as int),
            UserQuery::ByName(s) => UserQueryView::ByName(s@),
        }
    }
}

impl View for GroupQuery {
    type V = GroupQueryView;

    open spec fn view(&self) -> GroupQueryView {
        match self {
            GroupQuery::Id(n) => GroupQueryView::Id(*n as int),
            GroupQuery::ByName(s) => GroupQueryView::ByName(s@),
        }
    }
}

/// A specification that reads as a number is an id, any other one a name.
pub open spec fn user_query(spec_text: Seq<char>) -> UserQueryView {
    match read_unsigned(spec_text, 10, u32::MAX as nat) {
        Ok(n) => UserQueryView::ById(n as int),
        Err(_) => UserQueryView::ByName(spec_text),
    }
}

/// A specification that reads as a number is an id, any other one a name.
pub open spec fn group_query(spec_text: Seq<char>) -> GroupQueryView {
    match read_unsigned(spec_text, 10, u32::MAX as nat) {
        Ok(n) => GroupQueryView::Id(n as int),
        Err(_) => GroupQueryView::ByName(spec_text),
    }
}

fn parse_id(text: &str) -> (r: Option<u32>)
    ensures
        match r {
            Some(n) => read_unsigned(text@, 10, u32::MAX as nat) == Ok::<
                nat,
                crate::text::NumberError,
            >(n as nat),
            None => read_unsigned(text@, 10, u32::MAX as nat) is Err,
        },
{
    match parse_unsigned(text, 10, u32::MAX as u64) {
        Ok(n) => {
            proof {
                crate::text::lemma_read_digits_bound(text@, 10, u32::MAX as nat, 0);
                crate::text::lemma_read_digits_bound(text@.skip(1), 10, u32::MAX as nat, 0);
            }
            Some(n as u32)
        },
        Err(_) => None,
    }
}

impl UserQuery {
    /// How the user of this specification is looked up.
    pub fn of(text: &str) -> (r: UserQuery)
        ensures
            r@ == user_query(text@),
    {
        match parse_id(text) {
            Some(n) => UserQuery::ById(n),
            None => UserQuery::ByName(text.to_owned()),
        }
    }
}

impl GroupQuery {
    /// How the group of this specification is found.
    pub fn of(text: &str) -> (r: GroupQuery)
        ensures
            r@ == group_query(text@),
    {
        match parse_id(text) {
            Some(n) => GroupQuery::Id(n),
            None => GroupQuery::ByName(text.to_owned()),
        }
    }
}

/// A user as the system knows it.
#[derive(Debug)]
pub struct ResolvedUser {
    pub name: String,
    pub uid: u32,
    /// The primary group.
    pub gid: u32,
    /// The home directory.
    pub dir: UnixPath,
}

/// A [`ResolvedUser`] as a mathematical value.
pub struct UserView {
    pub name: Seq<char>,
    pub uid: int,
    pub gid: int,
    pub dir: Seq<u8>,
}

impl View for ResolvedUser {
    type V = UserView;

    open spec fn view(&self) -> UserView {
        UserView {
            name: self.name@,
            uid: self.uid as int,
            gid: self.gid as int,
            dir: self.dir@,
        }
    }
}

/// What looking up a user brought.
#[derive(Debug)]
pub enum UserReply {
    Found(ResolvedUser),
    Missing,
    /// The lookup itself failed.
    Failed(String),
}

/// What looking up a group brought.
#[derive(Debug)]
pub enum GroupReply {
    Found(u32),
    Missing,
    /// The lookup itself failed.
    Failed(String),
}

/// A [`UserReply`] as a mathematical value.
pub enum UserReplyView {
    Found(UserView),
    Missing,
    Failed(Seq<char>),
}

/// A [`GroupReply`] as a mathematical value.
pub enum GroupReplyView {
    Found(int),
    Missing,
    Failed(Seq<char>),
}

impl View for UserReply {
    type V = UserReplyView;

    open spec fn view(&self) -> UserReplyView {
        match self {
            UserReply::Found(u) => UserReplyView::Found(u@),
            UserReply::Missing => UserReplyView::Missing,
            UserReply::Failed(t) => UserReplyView::Failed(t@),
        }
    }
}

impl View for GroupReply {
    type V = GroupReplyView;

    open spec fn view(&self) -> GroupReplyView {
        match self {
            GroupReply::Found(g) => GroupReplyView::Found(*g as int),
            GroupReply::Missing => GroupReplyView::Missing,
            GroupReply::Failed(t) => GroupReplyView::Failed(t@),
        }
    }
}

/// The user that a lookup brought, or why there is none.
pub open spec fn user_of(query: UserQueryView, reply: UserReplyView) -> Result<UserView, ErrorView> {
    match reply {
        UserReplyView::Found(u) => Ok(u),
        UserReplyView::Missing => Err(
            ErrorView::UserNotFound(
                match query {
                    UserQueryView::ById(n) => "uid "@ + decimal(n),
                    UserQueryView::ByName(s) => s,
                },
            ),
        ),
        UserReplyView::Failed(text) => Err(
            ErrorView::UserNotFound(
                match query {
                    UserQueryView::ById(n) => "getpwuid("@ + decimal(n) + "): "@ + text,
                    UserQueryView::ByName(s) => "getpwnam("@ + s + "): "@ + text,
                },
            ),
        ),
    }
}

/// The group that a lookup by name brought, or why there is none.
pub open spec fn group_of(name: Seq<char>, reply: GroupReplyView) -> Result<int, ErrorView> {
    match reply {
        GroupReplyView::Found(g) => Ok(g),
        GroupReplyView::Missing => Err(ErrorView::GroupNotFound(name)),
        GroupReplyView::Failed(text) => Err(
            ErrorView::GroupNotFound("getgrnam("@ + name + "): "@ + text),
        ),
    }
}

/// Takes the reply to a user query.
pub fn resolve_user(query: &UserQuery, reply: UserReply) -> (r: Result<ResolvedUser, DaemonizeError>)
    ensures
        match r {
            Ok(u) => user_of(query@, reply@) == Ok::<UserView, ErrorView>(u@),
            Err(e) => user_of(query@, reply@) == Err::<UserView, ErrorView>(e@),
        },
{
    match reply {
        UserReply::Found(u) => Ok(u),
        UserReply::Missing => Err(
            DaemonizeError::UserNotFound(
                match query {
                    UserQuery::ById(n) => cat("uid ", decimal_of(*n as i64).as_str()),
                    UserQuery::ByName(s) => s.clone(),
                },
            ),
        ),
        UserReply::Failed(text) => Err(
            DaemonizeError::UserNotFound(
                match query {
                    UserQuery::ById(n) => cat4(
                        "getpwuid(",
                        decimal_of(*n as i64).as_str(),
                        "): ",
                        text.as_str(),
                    ),
                    UserQuery::ByName(s) => cat4("getpwnam(", s.as_str(), "): ", text.as_str()),
                },
            ),
        ),
    }
}

/// Takes the reply to a lookup of a group by name.
pub fn resolve_group_gid(name: &str, reply: GroupReply) -> (r: Result<u32, DaemonizeError>)
    ensures
        match r {
            Ok(g) => group_of(name@, reply@) == Ok::<int, ErrorView>(g as int),
            Err(e) => group_of(name@, reply@) == Err::<int, ErrorView>(e@),
        },
{
    match reply {
        GroupReply::Found(g) => Ok(g),
        GroupReply::Missing => Err(DaemonizeError::GroupNotFound(name.to_owned())),
        GroupReply::Failed(text) => Err(
            DaemonizeError::GroupNotFound(cat4("getgrnam(", name, "): ", text.as_str())),
        ),
    }
}

/// Where the first NUL byte stands.
pub open spec fn nul_position(bytes: Seq<u8>) -> Option<nat>
    decreases bytes.len(),
{
    if bytes.len() == 0 {
        None
    } else if bytes[0] == 0 {
        Some(0)
    } else {
        match nul_position(bytes.skip(1)) {
            Some(i) => Some(i + 1),
            None => None,
        }
    }
}

/// Finds the first NUL byte.
pub fn find_nul(bytes: &[u8]) -> (r: Option<usize>)
    ensures
        match r {
            Some(i) => nul_position(bytes@) == Some(i as nat),
            None => nul_position(bytes@) is None,
        },
{
    let mut i: usize = 0;
    assert(bytes@.skip(0) =~= bytes@);
    while i < bytes.len()
        invariant
            i <= bytes@.len(),
            nul_position(bytes@) == (match nul_position(bytes@.skip(i as int)) {
                Some(k) => Some((k + i) as nat),
                None => None::<nat>,
            }),
        decreases bytes@.len() - i,
    {
        assert(bytes@.skip(i as int).skip(1) =~= bytes@.skip(i + 1));
        if bytes[i] == 0 {
            return Some(i);
        }
        i = i + 1;
    }
    None
}

/// What is wrong with a user name that cannot be handed to the system.
pub open spec fn name_problem(name: Seq<char>) -> Option<ErrorView> {
    match nul_position(encode_utf8(name)) {
        Some(i) => Some(
            ErrorView::UserNotFound(
                "invalid username: "@ + "nul byte found in provided data at position: "@ + decimal(
                    i as int,
                ),
            ),
        ),
        None => None,
    }
}

/// Asks that a user name can be handed to the system.
pub fn check_name(name: &str) -> (r: Result<(), DaemonizeError>)
    ensures
        r is Ok <==> name_problem(name@) is None,
        r matches Err(e) ==> name_problem(name@) == Some(e@),
{
    match find_nul(name.as_bytes()) {
        None => Ok(()),
        Some(i) => Err(
            DaemonizeError::UserNotFound(
                cat3(
                    "invalid username: ",
                    "nul byte found in provided data at position: ",
                    crate::text::numeral_of(i as u64, 10).as_str(),
                ),
            ),
        ),
    }
}

impl ResolvedUser {
    /// The name, if it can be handed to the system.
    pub fn cname(&self) -> (r: Result<&str, DaemonizeError>)
        ensures
            match r {
                Ok(name) => name_problem(self@.name) is None && name@ == self@.name,
                Err(e) => name_problem(self@.name) == Some(e@),
            },
    {
        match check_name(self.name.as_str()) {
            Ok(()) => Ok(self.name.as_str()),
            Err(e) => Err(e),
        }
    }
}

/// The user and group to change to.
#[derive(Debug)]
pub struct ResolvedIdentity {
    pub user: Option<ResolvedUser>,
    pub explicit_group: Option<u32>,
}

/// A [`ResolvedIdentity`] as a mathematical value.
pub struct IdentityView {
    pub user: Option<UserView>,
    pub explicit_group: Option<int>,
}

/// An optional number as a mathematical value.
pub open spec fn opt_int(n: Option<u32>) -> Option<int> {
    match n {
        Some(v) => Some(v as int),
        None => None,
    }
}

impl View for ResolvedIdentity {
    type V = IdentityView;

    open spec fn view(&self) -> IdentityView {
        IdentityView {
            user: match self.user {
                Some(u) => Some(u@),
                None => None,
            },
            explicit_group: opt_int(self.explicit_group),
        }
    }
}

impl IdentityView {
    /// The group to change to: the explicit one, else the user's primary group.
    pub open spec fn effective_gid(self) -> Option<int> {
        match self.explicit_group {
            Some(g) => Some(g),
            None => match self.user {
                Some(u) => Some(u.gid),
                None => None,
            },
        }
    }

    /// The user id to change to.
    pub open spec fn uid(self) -> Option<int> {
        match self.user {
            Some(u) => Some(u.uid),
            None => None,
        }
    }
}

impl ResolvedIdentity {
    /// The group to change to: the explicit one, else the user's primary group.
    pub fn effective_gid(&self) -> (r: Option<u32>)
        ensures
            opt_int(r) == self@.effective_gid(),
    {
        match self.explicit_group {
            Some(g) => Some(g),
            None => match &self.user {
                Some(u) => Some(u.gid),
                None => None,
            },
        }
    }

    /// The owner and group that files are handed to. `None` leaves it as it is.
    pub fn chown_ids(&self) -> (r: (Option<u32>, Option<u32>))
        ensures
            opt_int(r.0) == self@.uid(),
            opt_int(r.1) == self@.effective_gid(),
    {
        (
            match &self.user {
                Some(u) => Some(u.uid),
                None => None,
            },
            self.effective_gid(),
        )
    }
}

} // verus!
