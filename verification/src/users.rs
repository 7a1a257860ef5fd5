//! Per-connection identities and their registration state.

use vstd::prelude::*;
use vstd::string::StringExecFns;

use crate::policy::Role;

verus! {

/// Opaque per-connection identifier, assigned monotonically by the listener
/// loop and never reused.
#[derive(Debug, Hash, Ord, PartialOrd, Eq, PartialEq, Copy, Clone, Structural)]
pub struct UserId(pub u64);

/// A registered identity: a display nick and the role that selects the
/// policy row.
#[derive(Debug, Clone)]
pub struct RegisteredUser {
    pub oauth_token: Option<String>,
    pub nick: String,
    pub role: Role,
}

/// The registration state of one identity.  `Anonymous` is the default
/// state of a newly introduced identity; `Registered` is reached once, by a
/// `register` request, and never left.
#[derive(Debug, Clone)]
pub enum User {
    Anonymous,
    Registered(RegisteredUser),
}

/// Mathematical model of a [`User`].
pub enum UserView {
    Anonymous,
    Registered { oauth_token: Option<Seq<char>>, nick: Seq<char>, role: Role },
}

impl View for User {
    type V = UserView;

    open spec fn view(&self) -> UserView {
        match self {
            User::Anonymous => UserView::Anonymous,
            User::Registered(ru) => UserView::Registered {
                oauth_token: match &ru.oauth_token {
                    Option::None => Option::None,
                    Option::Some(t) => Option::Some(t@),
                },
                nick: ru.nick@,
                role: ru.role,
            },
        }
    }
}

/// The nick a user displays as: the registered nick, or a placeholder for
/// an identity that never registered.
pub open spec fn spec_nick(u: UserView) -> Seq<char> {
    match u {
        UserView::Anonymous => "Anonymous"@,
        UserView::Registered { nick, .. } => nick,
    }
}

/// The role whose policy row governs a user's requests.
pub open spec fn spec_role(u: UserView) -> Role {
    match u {
        UserView::Anonymous => Role::Anonymous,
        UserView::Registered { role, .. } => role,
    }
}

impl User {
    pub fn is_anonymous(&self) -> (r: bool)
        ensures
            r == (self@ is Anonymous),
    {
        match self {
            User::Anonymous => true,
            User::Registered(_) => false,
        }
    }

    pub fn nick(&self) -> (r: &str)
        ensures
            r@ == spec_nick(self@),
    {
        match self {
            User::Anonymous => "Anonymous",
            User::Registered(ru) => ru.nick.as_str(),
        }
    }

    pub fn policy(&self) -> (r: Role)
        ensures
            r == spec_role(self@),
    {
        match self {
            User::Anonymous => Role::Anonymous,
            User::Registered(ru) => ru.role,
        }
    }

    pub fn anonymous() -> (r: User)
        ensures
            r@ is Anonymous,
    {
        User::Anonymous
    }

    pub fn registered(nick: &str) -> (r: User)
        ensures
            r@ == (UserView::Registered {
                oauth_token: Option::<Seq<char>>::None,
                nick: nick@,
                role: Role::Member,
            }),
    {
        User::Registered(RegisteredUser {
            oauth_token: Option::None,
            nick: String::from_str(nick),
            role: Role::Member,
        })
    }
}

} // verus!
